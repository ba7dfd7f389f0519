//! What the terminal interface shows: its pages and sections, and the rows
//! of each, built from the configuration and the live state of the
//! firewall. Drawing these rows is left to the terminal layer.
use vstd::prelude::*;
use vstd::string::*;
use crate::config::{texts, ACLConfig, Range};
use crate::settings::{
    first_index, is_first_index,
    dotted_quad, direction_label, entry_label, list_entries, push_dotted_quad, range_label,
    range_text, BoolField, Direction, InterfaceSelection, ListField, Proto,
};
use crate::text::{decimal, join, join_strings, push_decimal, push_decimal64};
use crate::events::{reason_label, reason_of, DropReason, EventLog, KukriEvent};
use crate::consts::{program_name, program_name_of};

verus! {

// ---------------------------------------------------------------------------
// Pages and sections
// ---------------------------------------------------------------------------

/// The two pages of the interface.
#[derive(Debug, Clone, Copy, PartialEq, Eq, Structural)]
pub enum Tab {
    /// Read-only: what is attached right now, what the rules block, and the
    /// drop events seen.
    Summary,
    /// The editable rules. Flipping a direction's master switch here is what
    /// attaches or detaches that direction's BPF program.
    Settings,
}

/// The sections of the Settings page, in the order they are cycled through.
#[derive(Debug, Clone, Copy, PartialEq, Eq, Structural)]
pub enum SettingsSection {
    Ip,
    Tcp,
    Udp,
    Mac,
    Interfaces,
}

/// The position of a section in the cycle.
pub open spec fn section_index(s: SettingsSection) -> int {
    match s {
        SettingsSection::Ip => 0,
        SettingsSection::Tcp => 1,
        SettingsSection::Udp => 2,
        SettingsSection::Mac => 3,
        SettingsSection::Interfaces => 4,
    }
}

/// The section at position `i` of the cycle.
pub open spec fn section_at(i: int) -> SettingsSection {
    if i == 0 {
        SettingsSection::Ip
    } else if i == 1 {
        SettingsSection::Tcp
    } else if i == 2 {
        SettingsSection::Udp
    } else if i == 3 {
        SettingsSection::Mac
    } else {
        SettingsSection::Interfaces
    }
}

/// The name shown for each section.
pub open spec fn section_label(s: SettingsSection) -> Seq<char> {
    match s {
        SettingsSection::Ip => "IP"@,
        SettingsSection::Tcp => "TCP"@,
        SettingsSection::Udp => "UDP"@,
        SettingsSection::Mac => "MAC"@,
        SettingsSection::Interfaces => "Interfaces"@,
    }
}

impl SettingsSection {
    pub const ALL: [SettingsSection; 5] = [
        SettingsSection::Ip,
        SettingsSection::Tcp,
        SettingsSection::Udp,
        SettingsSection::Mac,
        SettingsSection::Interfaces,
    ];

    pub fn label(self) -> (r: &'static str)
        ensures
            r@ == section_label(self),
    {
        match self {
            SettingsSection::Ip => "IP",
            SettingsSection::Tcp => "TCP",
            SettingsSection::Udp => "UDP",
            SettingsSection::Mac => "MAC",
            SettingsSection::Interfaces => "Interfaces",
        }
    }

    /// The section after this one, the last wrapping round to the first.
    pub fn next(self) -> (r: SettingsSection)
        ensures
            r == section_at((section_index(self) + 1) % 5),
    {
        match self {
            SettingsSection::Ip => SettingsSection::Tcp,
            SettingsSection::Tcp => SettingsSection::Udp,
            SettingsSection::Udp => SettingsSection::Mac,
            SettingsSection::Mac => SettingsSection::Interfaces,
            SettingsSection::Interfaces => SettingsSection::Ip,
        }
    }

    /// The section before this one, the first wrapping round to the last.
    pub fn prev(self) -> (r: SettingsSection)
        ensures
            r == section_at((section_index(self) + 4) % 5),
    {
        match self {
            SettingsSection::Ip => SettingsSection::Interfaces,
            SettingsSection::Tcp => SettingsSection::Ip,
            SettingsSection::Udp => SettingsSection::Tcp,
            SettingsSection::Mac => SettingsSection::Udp,
            SettingsSection::Interfaces => SettingsSection::Mac,
        }
    }
}

/// Going forward one section and back one lands where one started, and so
/// does going back and then forward.
pub proof fn law_section_prev_undoes_next(s: SettingsSection)
    ensures
        section_at((section_index(section_at((section_index(s) + 1) % 5)) + 4) % 5) == s,
        section_at((section_index(section_at((section_index(s) + 4) % 5)) + 1) % 5) == s,
{
}

/// The section that `n` presses of "next" lead to from `s`.
pub open spec fn after_nexts(s: SettingsSection, n: nat) -> SettingsSection
    decreases n,
{
    if n == 0 {
        s
    } else {
        section_at((section_index(after_nexts(s, (n - 1) as nat)) + 1) % 5)
    }
}

proof fn lemma_after_nexts(s: SettingsSection, n: nat)
    ensures
        after_nexts(s, n) == section_at((section_index(s) + n) % 5),
    decreases n,
{
    if n > 0 {
        lemma_after_nexts(s, (n - 1) as nat);
        let k = (section_index(s) + n - 1) % 5;
        assert(section_index(section_at(k)) == k);
        assert((k + 1) % 5 == (section_index(s) + n) % 5);
    }
}

/// Pressing "next" five times visits every section once and comes back to
/// the start.
pub proof fn law_sections_cycle(s: SettingsSection)
    ensures
        after_nexts(s, 5) == s,
        forall|i: nat, j: nat| i < j < 5 ==> after_nexts(s, i) != after_nexts(s, j),
{
    lemma_after_nexts(s, 5);
    assert forall|i: nat, j: nat| i < j < 5 implies after_nexts(s, i) != after_nexts(s, j) by {
        lemma_after_nexts(s, i);
        lemma_after_nexts(s, j);
        let a = (section_index(s) + i) % 5;
        let b = (section_index(s) + j) % 5;
        assert(a != b);
        assert(section_index(section_at(a)) == a);
        assert(section_index(section_at(b)) == b);
    }
}

// ---------------------------------------------------------------------------
// Rows
// ---------------------------------------------------------------------------

/// One line of the current page or section.
#[derive(Debug, Clone)]
pub enum Row {
    Header(String),
    /// Summary page only: a read-only line, such as a list of blocked ports.
    Info(String),
    Bool(BoolField, String),
    Item(ListField, usize, String),
    AddNew(ListField, String),
    Iface(String, bool),
}

/// A row, its texts taken as characters.
pub enum RowView {
    Header(Seq<char>),
    Info(Seq<char>),
    Bool(BoolField, Seq<char>),
    Item(ListField, nat, Seq<char>),
    AddNew(ListField, Seq<char>),
    Iface(Seq<char>, bool),
}

impl View for Row {
    type V = RowView;

    open spec fn view(&self) -> RowView {
        match self {
            Row::Header(t) => RowView::Header(t@),
            Row::Info(t) => RowView::Info(t@),
            Row::Bool(f, t) => RowView::Bool(*f, t@),
            Row::Item(f, i, t) => RowView::Item(*f, *i as nat, t@),
            Row::AddNew(f, t) => RowView::AddNew(*f, t@),
            Row::Iface(n, s) => RowView::Iface(n@, *s),
        }
    }
}

pub open spec fn rows_view(rows: Seq<Row>) -> Seq<RowView> {
    rows.map_values(|r: Row| r@)
}

/// Whether the cursor can rest on a row: everything but headers and
/// read-only lines.
pub open spec fn selectable(r: RowView) -> bool {
    !(r is Header || r is Info)
}

pub fn is_selectable(row: &Row) -> (r: bool)
    ensures
        r == selectable(row@),
{
    match row {
        Row::Bool(..) | Row::Item(..) | Row::AddNew(..) | Row::Iface(..) => true,
        _ => false,
    }
}

/// Pushes `row` onto `rows`.
fn push_row(rows: &mut Vec<Row>, row: Row)
    ensures
        rows_view(final(rows)@) == rows_view(old(rows)@).push(row@),
{
    rows.push(row);
    assert(rows_view(rows@) =~= rows_view(old(rows)@).push(row@));
}

/// The string made of three texts in a row.
fn concat3(a: &str, b: &str, c: &str) -> (r: String)
    ensures
        r@ == a@ + b@ + c@,
{
    let mut r = String::from_str(a);
    r.append(b);
    r.append(c);
    r
}

/// The string made of two texts in a row.
fn concat2(a: &str, b: &str) -> (r: String)
    ensures
        r@ == a@ + b@,
{
    let mut r = String::from_str(a);
    r.append(b);
    r
}

/// The heading of a direction's block of rows.
pub open spec fn direction_heading(dir: Direction) -> Seq<char> {
    "── "@ + direction_label(dir) + " ──"@
}

pub fn direction_header(dir: Direction) -> (r: String)
    ensures
        r@ == direction_heading(dir),
{
    concat3("── ", dir.label(), " ──")
}

/// Ingress blocks by source, where the traffic comes from; egress by
/// destination, where it goes.
pub open spec fn peer(dir: Direction) -> Seq<char> {
    match dir {
        Direction::Ingress => "source"@,
        Direction::Engress => "destination"@,
    }
}

pub fn peer_word(dir: Direction) -> (r: &'static str)
    ensures
        r@ == peer(dir),
{
    match dir {
        Direction::Ingress => "source",
        Direction::Engress => "destination",
    }
}

/// The rows of one editable list: its header, one row per entry, and the
/// row that adds a new entry.
pub open spec fn list_rows(field: ListField, c: ACLConfig, header: Seq<char>, add_label: Seq<char>) -> Seq<RowView> {
    seq![RowView::Header(header)] + Seq::new(
        list_entries(field, c).len(),
        |i: int| RowView::Item(field, i as nat, entry_label(list_entries(field, c)[i])),
    ) + seq![RowView::AddNew(field, add_label)]
}

pub fn push_list_rows(rows: &mut Vec<Row>, config: &ACLConfig, field: ListField, header: &str, add_label: &str)
    ensures
        rows_view(final(rows)@) == rows_view(old(rows)@) + list_rows(field, *config, header@, add_label@),
{
    let ghost start = rows_view(rows@);
    let ghost items = Seq::new(
        list_entries(field, *config).len(),
        |i: int| RowView::Item(field, i as nat, entry_label(list_entries(field, *config)[i])),
    );
    push_row(rows, Row::Header(String::from_str(header)));
    let n = field.len(config);
    let mut index: usize = 0;
    while index < n
        invariant
            n == list_entries(field, *config).len(),
            index <= n,
            items == Seq::new(
                list_entries(field, *config).len(),
                |i: int| RowView::Item(field, i as nat, entry_label(list_entries(field, *config)[i])),
            ),
            rows_view(rows@) == start + seq![RowView::Header(header@)] + items.take(index as int),
        decreases n - index,
    {
        let label = field.item_label(config, index);
        push_row(rows, Row::Item(field, index, label));
        assert(items.take(index + 1) =~= items.take(index as int).push(items[index as int]));
        index = index + 1;
    }
    push_row(rows, Row::AddNew(field, String::from_str(add_label)));
    assert(items.take(n as int) =~= items);
    assert(rows_view(rows@) =~= start + list_rows(field, *config, header@, add_label@));
}

// ---------------------------------------------------------------------------
// Summary page: what the rules block
// ---------------------------------------------------------------------------

/// The ports and port ranges of a rule list, as shown: ports first, then
/// ranges.
pub open spec fn port_texts(ports: Seq<u16>, ranges: Seq<Range>) -> Seq<Seq<char>> {
    ports.map_values(|p: u16| decimal(p as nat)) + ranges.map_values(|r: Range| range_text(r))
}

/// Pushes the text of each string of `v` onto `out`.
fn extend_texts(out: &mut Vec<String>, v: &Vec<String>)
    ensures
        texts(final(out)@) == texts(old(out)@) + texts(v@),
{
    let mut i: usize = 0;
    while i < v.len()
        invariant
            i <= v.len(),
            texts(out@) == texts(old(out)@) + texts(v@).take(i as int),
        decreases v.len() - i,
    {
        let ghost before = out@;
        out.push(v[i].clone());
        assert(texts(out@) =~= texts(before).push(v@[i as int]@));
        assert(texts(v@).take(i + 1) =~= texts(v@).take(i as int).push(v@[i as int]@));
        i = i + 1;
    }
    assert(texts(v@).take(v.len() as int) =~= texts(v@));
}

pub fn port_items(ports: &Vec<u16>, ranges: &Vec<Range>) -> (items: Vec<String>)
    ensures
        texts(items@) == port_texts(ports@, ranges@),
{
    let mut items: Vec<String> = Vec::new();
    let mut i: usize = 0;
    while i < ports.len()
        invariant
            i <= ports.len(),
            texts(items@) == ports@.take(i as int).map_values(|p: u16| decimal(p as nat)),
        decreases ports.len() - i,
    {
        let mut t = String::new();
        push_decimal(&mut t, ports[i] as u32);
        let ghost before = items@;
        items.push(t);
        assert(texts(items@) =~= texts(before).push(decimal(ports@[i as int] as nat)));
        assert(ports@.take(i + 1).map_values(|p: u16| decimal(p as nat)) =~= ports@.take(
            i as int,
        ).map_values(|p: u16| decimal(p as nat)).push(decimal(ports@[i as int] as nat)));
        i = i + 1;
    }
    assert(ports@.take(ports.len() as int) =~= ports@);
    let ghost singles = texts(items@);
    let mut j: usize = 0;
    while j < ranges.len()
        invariant
            j <= ranges.len(),
            texts(items@) == singles + ranges@.take(j as int).map_values(|r: Range| range_text(r)),
        decreases ranges.len() - j,
    {
        let t = range_label(&ranges[j]);
        let ghost before = items@;
        items.push(t);
        assert(texts(items@) =~= texts(before).push(range_text(ranges@[j as int])));
        assert(ranges@.take(j + 1).map_values(|r: Range| range_text(r)) =~= ranges@.take(
            j as int,
        ).map_values(|r: Range| range_text(r)).push(range_text(ranges@[j as int])));
        j = j + 1;
    }
    assert(ranges@.take(ranges.len() as int) =~= ranges@);
    items
}

/// The summary line for a rule list.
pub open spec fn summary_text(label: Seq<char>, items: Seq<Seq<char>>) -> Seq<char> {
    if items.len() == 0 {
        label + ": none blocked"@
    } else {
        label + ": blocking "@ + join(items, ", "@)
    }
}

pub fn summary_line(label: &str, items: &Vec<String>) -> (r: Row)
    ensures
        r@ == RowView::Info(summary_text(label@, texts(items@))),
{
    if items.len() == 0 {
        let mut t = String::from_str(label);
        t.append(": none blocked");
        Row::Info(t)
    } else {
        let mut t = String::from_str(label);
        t.append(": blocking ");
        let joined = join_strings(items, ", ");
        t.append(joined.as_str());
        Row::Info(t)
    }
}

/// The Ethernet rows of the summary.
pub open spec fn layer2_view(c: ACLConfig) -> Seq<RowView> {
    seq![
        RowView::Header("Layer 2 Summary"@),
        RowView::Info(summary_text("Ingress MAC (source)"@, texts(c.ingress.mac_rules.blocked_source_macs@))),
        RowView::Info(summary_text("Engress MAC (destination)"@, texts(c.engress.mac_rules.blocked_destination_macs@))),
    ]
}

pub fn layer2_rows(config: &ACLConfig) -> (rows: Vec<Row>)
    ensures
        rows_view(rows@) == layer2_view(*config),
{
    let mut rows: Vec<Row> = Vec::new();
    push_row(&mut rows, Row::Header(String::from_str("Layer 2 Summary")));
    push_row(&mut rows, summary_line("Ingress MAC (source)", &config.ingress.mac_rules.blocked_source_macs));
    push_row(
        &mut rows,
        summary_line("Engress MAC (destination)", &config.engress.mac_rules.blocked_destination_macs),
    );
    assert(rows_view(rows@) =~= layer2_view(*config));
    rows
}

/// Blocked IPv4 addresses as shown, followed by the blocked CIDR ranges.
pub open spec fn ipv4_texts(ips: Seq<u32>, ranges: Seq<String>) -> Seq<Seq<char>> {
    ips.map_values(|ip: u32| dotted_quad(ip)) + texts(ranges)
}

fn ipv4_items(ips: &Vec<u32>, ranges: &Vec<String>) -> (items: Vec<String>)
    ensures
        texts(items@) == ipv4_texts(ips@, ranges@),
{
    let mut items: Vec<String> = Vec::new();
    let mut i: usize = 0;
    while i < ips.len()
        invariant
            i <= ips.len(),
            texts(items@) == ips@.take(i as int).map_values(|ip: u32| dotted_quad(ip)),
        decreases ips.len() - i,
    {
        let mut t = String::new();
        push_dotted_quad(&mut t, ips[i]);
        let ghost before = items@;
        items.push(t);
        assert(texts(items@) =~= texts(before).push(dotted_quad(ips@[i as int])));
        assert(ips@.take(i + 1).map_values(|ip: u32| dotted_quad(ip)) =~= ips@.take(
            i as int,
        ).map_values(|ip: u32| dotted_quad(ip)).push(dotted_quad(ips@[i as int])));
        i = i + 1;
    }
    assert(ips@.take(ips.len() as int) =~= ips@);
    extend_texts(&mut items, ranges);
    items
}

fn ipv6_items(ips: &Vec<String>, ranges: &Vec<String>) -> (items: Vec<String>)
    ensures
        texts(items@) == texts(ips@) + texts(ranges@),
{
    let mut items: Vec<String> = Vec::new();
    extend_texts(&mut items, ips);
    extend_texts(&mut items, ranges);
    assert(texts(Seq::<String>::empty()) =~= Seq::<Seq<char>>::empty());
    assert(Seq::<Seq<char>>::empty() + texts(ips@) =~= texts(ips@));
    items
}

/// The IPv4 and IPv6 rows of the summary.
pub open spec fn layer3_view(c: ACLConfig) -> Seq<RowView> {
    seq![
        RowView::Header("Layer 3 Summary"@),
        RowView::Info(summary_text(
            "Ingress IPv4 (source)"@,
            ipv4_texts(c.ingress.ipv4_rules.blocked_source_ips@, c.ingress.ipv4_rules.blocked_source_ranges@),
        )),
        RowView::Info(summary_text(
            "Ingress IPv6 (source)"@,
            texts(c.ingress.ipv6_rules.blocked_source_ips@) + texts(c.ingress.ipv6_rules.blocked_source_ranges@),
        )),
        RowView::Info(summary_text(
            "Engress IPv4 (destination)"@,
            ipv4_texts(c.engress.ipv4_rules.blocked_destination_ips@, c.engress.ipv4_rules.blocked_destination_ranges@),
        )),
        RowView::Info(summary_text(
            "Engress IPv6 (destination)"@,
            texts(c.engress.ipv6_rules.blocked_destination_ips@) + texts(c.engress.ipv6_rules.blocked_destination_ranges@),
        )),
    ]
}

pub fn layer3_rows(config: &ACLConfig) -> (rows: Vec<Row>)
    ensures
        rows_view(rows@) == layer3_view(*config),
{
    let mut rows: Vec<Row> = Vec::new();
    push_row(&mut rows, Row::Header(String::from_str("Layer 3 Summary")));
    let ingress = ipv4_items(&config.ingress.ipv4_rules.blocked_source_ips, &config.ingress.ipv4_rules.blocked_source_ranges);
    push_row(&mut rows, summary_line("Ingress IPv4 (source)", &ingress));
    let ingress6 = ipv6_items(&config.ingress.ipv6_rules.blocked_source_ips, &config.ingress.ipv6_rules.blocked_source_ranges);
    push_row(&mut rows, summary_line("Ingress IPv6 (source)", &ingress6));
    let engress = ipv4_items(
        &config.engress.ipv4_rules.blocked_destination_ips,
        &config.engress.ipv4_rules.blocked_destination_ranges,
    );
    push_row(&mut rows, summary_line("Engress IPv4 (destination)", &engress));
    let engress6 = ipv6_items(
        &config.engress.ipv6_rules.blocked_destination_ips,
        &config.engress.ipv6_rules.blocked_destination_ranges,
    );
    push_row(&mut rows, summary_line("Engress IPv6 (destination)", &engress6));
    assert(rows_view(rows@) =~= layer3_view(*config));
    rows
}

/// The TCP and UDP rows of the summary.
pub open spec fn layer4_view(c: ACLConfig) -> Seq<RowView> {
    seq![
        RowView::Header("Layer 4 Summary"@),
        RowView::Info(summary_text(
            "Ingress TCP (source)"@,
            port_texts(c.ingress.tcp_rules.blocked_source_ports@, c.ingress.tcp_rules.blocked_source_ranges@),
        )),
        RowView::Info(summary_text(
            "Ingress UDP (source)"@,
            port_texts(c.ingress.udp_rules.blocked_source_ports@, c.ingress.udp_rules.blocked_source_ranges@),
        )),
        RowView::Info(summary_text(
            "Engress TCP (destination)"@,
            port_texts(c.engress.tcp_rules.blocked_destination_ports@, c.engress.tcp_rules.blocked_destination_ranges@),
        )),
        RowView::Info(summary_text(
            "Engress UDP (destination)"@,
            port_texts(c.engress.udp_rules.blocked_destination_ports@, c.engress.udp_rules.blocked_destination_ranges@),
        )),
    ]
}

pub fn layer4_rows(config: &ACLConfig) -> (rows: Vec<Row>)
    ensures
        rows_view(rows@) == layer4_view(*config),
{
    let mut rows: Vec<Row> = Vec::new();
    push_row(&mut rows, Row::Header(String::from_str("Layer 4 Summary")));
    let a = port_items(&config.ingress.tcp_rules.blocked_source_ports, &config.ingress.tcp_rules.blocked_source_ranges);
    push_row(&mut rows, summary_line("Ingress TCP (source)", &a));
    let b = port_items(&config.ingress.udp_rules.blocked_source_ports, &config.ingress.udp_rules.blocked_source_ranges);
    push_row(&mut rows, summary_line("Ingress UDP (source)", &b));
    let c = port_items(
        &config.engress.tcp_rules.blocked_destination_ports,
        &config.engress.tcp_rules.blocked_destination_ranges,
    );
    push_row(&mut rows, summary_line("Engress TCP (destination)", &c));
    let d = port_items(
        &config.engress.udp_rules.blocked_destination_ports,
        &config.engress.udp_rules.blocked_destination_ranges,
    );
    push_row(&mut rows, summary_line("Engress UDP (destination)", &d));
    assert(rows_view(rows@) =~= layer4_view(*config));
    rows
}

// ---------------------------------------------------------------------------
// Settings page
// ---------------------------------------------------------------------------

/// The rate limits of a direction.
pub open spec fn rate_of(c: ACLConfig, dir: Direction) -> (u32, u32) {
    match dir {
        Direction::Ingress => (c.ingress.rate_limit.ip_rate_limit_pps, c.ingress.rate_limit.port_rate_limit_pps),
        Direction::Engress => (c.engress.rate_limit.ip_rate_limit_pps, c.engress.rate_limit.port_rate_limit_pps),
    }
}

/// The rows of the IP section for one direction.
pub open spec fn ip_block(c: ACLConfig, dir: Direction) -> Seq<RowView> {
    let p = peer(dir);
    seq![
        RowView::Header(direction_heading(dir)),
        RowView::Bool(
            BoolField::EnableRules(dir),
            "Enable rules (master switch — attaches/detaches the BPF program)"@,
        ),
        RowView::Bool(BoolField::EnableIpRules(dir), "Enable IPv4 rules"@),
        RowView::Bool(BoolField::DisableLoopback(dir), "Disable IPv4 loopback"@),
    ] + list_rows(ListField::BlockedIps(dir), c, "Blocked "@ + p + " IPv4 IPs"@, "+ add "@ + p + " IPv4 IP"@)
        + list_rows(
        ListField::BlockedCidrRanges(dir),
        c,
        "Blocked "@ + p + " IPv4 CIDR ranges"@,
        "+ add "@ + p + " CIDR range (a.b.c.d/prefix)"@,
    ) + seq![
        RowView::Bool(BoolField::EnableIpv6Rules(dir), "Enable IPv6 rules"@),
        RowView::Bool(BoolField::DisableLoopback6(dir), "Disable IPv6 loopback"@),
    ] + list_rows(ListField::BlockedIps6(dir), c, "Blocked "@ + p + " IPv6 IPs"@, "+ add "@ + p + " IPv6 IP"@)
        + list_rows(
        ListField::BlockedCidrRanges6(dir),
        c,
        "Blocked "@ + p + " IPv6 CIDR ranges"@,
        "+ add "@ + p + " CIDR range (ipv6-address/prefix)"@,
    ) + seq![
        RowView::Header("Rate limit"@),
        RowView::Bool(BoolField::EnableIpRateLimit(dir), "Enable per-"@ + p + "-IP rate limit"@),
        RowView::Info("IP limit: "@ + decimal(rate_of(c, dir).0 as nat) + " packets/s (0 = unlimited)"@),
        RowView::Bool(BoolField::EnablePortRateLimit(dir), "Enable per-destination-port rate limit"@),
        RowView::Info("Port limit: "@ + decimal(rate_of(c, dir).1 as nat) + " packets/s (0 = unlimited)"@),
    ]
}

/// A line made of a text and a number and a text.
fn number_line(before: &str, n: u32, after: &str) -> (r: String)
    ensures
        r@ == before@ + decimal(n as nat) + after@,
{
    let mut t = String::from_str(before);
    push_decimal(&mut t, n);
    t.append(after);
    t
}

fn push_ip_block(rows: &mut Vec<Row>, config: &ACLConfig, dir: Direction)
    ensures
        rows_view(final(rows)@) == rows_view(old(rows)@) + ip_block(*config, dir),
{
    let ghost start = rows_view(rows@);
    let p = peer_word(dir);
    push_row(rows, Row::Header(direction_header(dir)));
    push_row(
        rows,
        Row::Bool(
            BoolField::EnableRules(dir),
            String::from_str("Enable rules (master switch — attaches/detaches the BPF program)"),
        ),
    );
    push_row(rows, Row::Bool(BoolField::EnableIpRules(dir), String::from_str("Enable IPv4 rules")));
    push_row(rows, Row::Bool(BoolField::DisableLoopback(dir), String::from_str("Disable IPv4 loopback")));
    let ghost a = rows_view(rows@);
    push_list_rows(
        rows,
        config,
        ListField::BlockedIps(dir),
        concat3("Blocked ", p, " IPv4 IPs").as_str(),
        concat3("+ add ", p, " IPv4 IP").as_str(),
    );
    push_list_rows(
        rows,
        config,
        ListField::BlockedCidrRanges(dir),
        concat3("Blocked ", p, " IPv4 CIDR ranges").as_str(),
        concat3("+ add ", p, " CIDR range (a.b.c.d/prefix)").as_str(),
    );
    push_row(rows, Row::Bool(BoolField::EnableIpv6Rules(dir), String::from_str("Enable IPv6 rules")));
    push_row(rows, Row::Bool(BoolField::DisableLoopback6(dir), String::from_str("Disable IPv6 loopback")));
    push_list_rows(
        rows,
        config,
        ListField::BlockedIps6(dir),
        concat3("Blocked ", p, " IPv6 IPs").as_str(),
        concat3("+ add ", p, " IPv6 IP").as_str(),
    );
    push_list_rows(
        rows,
        config,
        ListField::BlockedCidrRanges6(dir),
        concat3("Blocked ", p, " IPv6 CIDR ranges").as_str(),
        concat3("+ add ", p, " CIDR range (ipv6-address/prefix)").as_str(),
    );
    let (ip_pps, port_pps) = match dir {
        Direction::Ingress => (config.ingress.rate_limit.ip_rate_limit_pps, config.ingress.rate_limit.port_rate_limit_pps),
        Direction::Engress => (config.engress.rate_limit.ip_rate_limit_pps, config.engress.rate_limit.port_rate_limit_pps),
    };
    push_row(rows, Row::Header(String::from_str("Rate limit")));
    push_row(rows, Row::Bool(BoolField::EnableIpRateLimit(dir), concat3("Enable per-", p, "-IP rate limit")));
    push_row(rows, Row::Info(number_line("IP limit: ", ip_pps, " packets/s (0 = unlimited)")));
    push_row(
        rows,
        Row::Bool(BoolField::EnablePortRateLimit(dir), String::from_str("Enable per-destination-port rate limit")),
    );
    push_row(rows, Row::Info(number_line("Port limit: ", port_pps, " packets/s (0 = unlimited)")));
    assert(rows_view(rows@) =~= start + ip_block(*config, dir));
}

/// The rows of the IP section: the ingress block, then the egress block.
pub open spec fn ip_rows_view(c: ACLConfig) -> Seq<RowView> {
    ip_block(c, Direction::Ingress) + ip_block(c, Direction::Engress)
}

pub fn ip_rows(config: &ACLConfig) -> (rows: Vec<Row>)
    ensures
        rows_view(rows@) == ip_rows_view(*config),
{
    let mut rows: Vec<Row> = Vec::new();
    push_ip_block(&mut rows, config, Direction::Ingress);
    push_ip_block(&mut rows, config, Direction::Engress);
    assert(rows_view(Seq::<Row>::empty()) =~= Seq::<RowView>::empty());
    assert(rows_view(rows@) =~= ip_rows_view(*config));
    rows
}

/// The rows of a port section (TCP or UDP) for one direction.
pub open spec fn port_block(c: ACLConfig, dir: Direction, proto: Proto) -> Seq<RowView> {
    let p = peer(dir);
    seq![
        RowView::Header(direction_heading(dir)),
        RowView::Bool(BoolField::EnablePortRules(dir, proto), "Enable rules"@),
    ] + list_rows(ListField::BlockedPorts(dir, proto), c, "Blocked "@ + p + " ports"@, "+ add "@ + p + " port"@)
        + list_rows(
        ListField::BlockedPortRanges(dir, proto),
        c,
        "Blocked "@ + p + " port ranges"@,
        "+ add "@ + p + " port range (start-end)"@,
    )
}

fn push_port_block(rows: &mut Vec<Row>, config: &ACLConfig, dir: Direction, proto: Proto)
    ensures
        rows_view(final(rows)@) == rows_view(old(rows)@) + port_block(*config, dir, proto),
{
    let ghost start = rows_view(rows@);
    let p = peer_word(dir);
    push_row(rows, Row::Header(direction_header(dir)));
    push_row(rows, Row::Bool(BoolField::EnablePortRules(dir, proto), String::from_str("Enable rules")));
    push_list_rows(
        rows,
        config,
        ListField::BlockedPorts(dir, proto),
        concat3("Blocked ", p, " ports").as_str(),
        concat3("+ add ", p, " port").as_str(),
    );
    push_list_rows(
        rows,
        config,
        ListField::BlockedPortRanges(dir, proto),
        concat3("Blocked ", p, " port ranges").as_str(),
        concat3("+ add ", p, " port range (start-end)").as_str(),
    );
    assert(rows_view(rows@) =~= start + port_block(*config, dir, proto));
}

pub fn port_section_rows(config: &ACLConfig, proto: Proto) -> (rows: Vec<Row>)
    ensures
        rows_view(rows@) == port_block(*config, Direction::Ingress, proto) + port_block(
            *config,
            Direction::Engress,
            proto,
        ),
{
    let mut rows: Vec<Row> = Vec::new();
    push_port_block(&mut rows, config, Direction::Ingress, proto);
    push_port_block(&mut rows, config, Direction::Engress, proto);
    assert(rows_view(Seq::<Row>::empty()) =~= Seq::<RowView>::empty());
    assert(rows_view(rows@) =~= port_block(*config, Direction::Ingress, proto) + port_block(*config, Direction::Engress, proto));
    rows
}

/// The rows of the MAC section for one direction.
pub open spec fn mac_block(c: ACLConfig, dir: Direction) -> Seq<RowView> {
    let p = peer(dir);
    seq![
        RowView::Header(direction_heading(dir)),
        RowView::Bool(BoolField::EnableMacRules(dir), "Enable MAC rules"@),
    ] + list_rows(ListField::BlockedMacs(dir), c, "Blocked "@ + p + " MACs"@, "+ add "@ + p + " MAC (aa:bb:cc:dd:ee:ff)"@)
}

fn push_mac_block(rows: &mut Vec<Row>, config: &ACLConfig, dir: Direction)
    ensures
        rows_view(final(rows)@) == rows_view(old(rows)@) + mac_block(*config, dir),
{
    let ghost start = rows_view(rows@);
    let p = peer_word(dir);
    push_row(rows, Row::Header(direction_header(dir)));
    push_row(rows, Row::Bool(BoolField::EnableMacRules(dir), String::from_str("Enable MAC rules")));
    push_list_rows(
        rows,
        config,
        ListField::BlockedMacs(dir),
        concat3("Blocked ", p, " MACs").as_str(),
        concat3("+ add ", p, " MAC (aa:bb:cc:dd:ee:ff)").as_str(),
    );
    assert(rows_view(rows@) =~= start + mac_block(*config, dir));
}

pub fn mac_rows(config: &ACLConfig) -> (rows: Vec<Row>)
    ensures
        rows_view(rows@) == mac_block(*config, Direction::Ingress) + mac_block(*config, Direction::Engress),
{
    let mut rows: Vec<Row> = Vec::new();
    push_mac_block(&mut rows, config, Direction::Ingress);
    push_mac_block(&mut rows, config, Direction::Engress);
    assert(rows_view(Seq::<Row>::empty()) =~= Seq::<RowView>::empty());
    assert(rows_view(rows@) =~= mac_block(*config, Direction::Ingress) + mac_block(*config, Direction::Engress));
    rows
}

/// One row per available interface, marked when it is selected.
pub open spec fn interface_rows_view(available: Seq<Seq<char>>, selected: Seq<Seq<char>>) -> Seq<RowView> {
    available.map_values(|name: Seq<char>| RowView::Iface(name, selected.contains(name)))
}

/// Whether `name` is one of `names`.
fn contains_text(names: &Vec<String>, name: &str) -> (r: bool)
    ensures
        r == texts(names@).contains(name@),
{
    let mut i: usize = 0;
    while i < names.len()
        invariant
            i <= names.len(),
            forall|j: int| 0 <= j < i ==> names@[j]@ != name@,
        decreases names.len() - i,
    {
        if crate::text::str_equals(names[i].as_str(), name) {
            assert(texts(names@)[i as int] == name@);
            return true;
        }
        i = i + 1;
    }
    proof {
        if texts(names@).contains(name@) {
            let k = choose|k: int| 0 <= k < texts(names@).len() && texts(names@)[k] == name@;
            assert(names@[k]@ == name@);
        }
    }
    false
}

pub fn interface_rows(selection: &InterfaceSelection) -> (rows: Vec<Row>)
    ensures
        rows_view(rows@) == interface_rows_view(texts(selection.available@), texts(selection.selected@)),
{
    let ghost want = interface_rows_view(texts(selection.available@), texts(selection.selected@));
    let mut rows: Vec<Row> = Vec::new();
    let mut i: usize = 0;
    while i < selection.available.len()
        invariant
            i <= selection.available.len(),
            want == interface_rows_view(texts(selection.available@), texts(selection.selected@)),
            rows_view(rows@) == want.take(i as int),
        decreases selection.available.len() - i,
    {
        let name = &selection.available[i];
        let on = contains_text(&selection.selected, name.as_str());
        push_row(&mut rows, Row::Iface(name.clone(), on));
        assert(want.take(i + 1) =~= want.take(i as int).push(want[i as int]));
        i = i + 1;
    }
    assert(want.take(selection.available.len() as int) =~= want);
    rows
}

/// The key help shown in the footer when there is no status message.
pub open spec fn footer_hint(tab: Tab) -> Seq<char> {
    match tab {
        Tab::Summary => "Tab switch page   s save config   q quit"@,
        Tab::Settings => "Tab switch page   \u{2190}/\u{2192} section   \u{2191}/\u{2193} move   space toggle   d delete   enter toggle/add   s save config   q quit"@,
    }
}

pub fn default_footer_hint(tab: Tab) -> (r: String)
    ensures
        r@ == footer_hint(tab),
{
    match tab {
        Tab::Summary => String::from_str("Tab switch page   s save config   q quit"),
        Tab::Settings => String::from_str(
            "Tab switch page   \u{2190}/\u{2192} section   \u{2191}/\u{2193} move   space toggle   d delete   enter toggle/add   s save config   q quit",
        ),
    }
}

// ---------------------------------------------------------------------------
// Summary page: what the event stream reports
// ---------------------------------------------------------------------------

/// How many times `k` occurs in `keys`.
pub open spec fn count_of(keys: Seq<u32>, k: u32) -> nat
    decreases keys.len(),
{
    if keys.len() == 0 {
        0
    } else {
        count_of(keys.drop_last(), k) + if keys.last() == k {
            1nat
        } else {
            0nat
        }
    }
}

/// `t` holds each key that occurs in `keys` once, in increasing order,
/// with the number of times it occurs.
pub open spec fn tallies(t: Seq<(u32, usize)>, keys: Seq<u32>) -> bool {
    &&& forall|i: int, j: int| 0 <= i < j < t.len() ==> t[i].0 < t[j].0
    &&& forall|i: int| 0 <= i < t.len() ==> t[i].1 == count_of(keys, t[i].0) && t[i].1 > 0
    &&& forall|k: u32| count_of(keys, k) > 0 ==> exists|i: int| 0 <= i < t.len() && t[i].0 == k
}

proof fn lemma_count_bounded(keys: Seq<u32>, k: u32)
    ensures
        count_of(keys, k) <= keys.len(),
    decreases keys.len(),
{
    if keys.len() > 0 {
        lemma_count_bounded(keys.drop_last(), k);
    }
}

proof fn lemma_tallies_agree(a: Seq<(u32, usize)>, b: Seq<(u32, usize)>, keys: Seq<u32>, i: int)
    requires
        tallies(a, keys),
        tallies(b, keys),
        0 <= i <= a.len(),
        i <= b.len(),
    ensures
        forall|x: int| 0 <= x < i ==> a[x] == b[x],
    decreases i,
{
    if i > 0 {
        lemma_tallies_agree(a, b, keys, i - 1);
        let m = i - 1;
        let ka = a[m].0;
        let kb = b[m].0;
        assert(count_of(keys, ka) > 0);
        let j = choose|j: int| 0 <= j < b.len() && b[j].0 == ka;
        if j < m {
            assert(a[j] == b[j]);
        }
        assert(count_of(keys, kb) > 0);
        let j2 = choose|j: int| 0 <= j < a.len() && a[j].0 == kb;
        if j2 < m {
            assert(a[j2] == b[j2]);
        }
        assert(ka == kb);
    }
}

/// The tally of a run of keys is determined by the keys: there is only one.
pub proof fn law_tally_is_unique(a: Seq<(u32, usize)>, b: Seq<(u32, usize)>, keys: Seq<u32>)
    requires
        tallies(a, keys),
        tallies(b, keys),
    ensures
        a == b,
{
    if a.len() <= b.len() {
        lemma_tallies_agree(a, b, keys, a.len() as int);
        if a.len() < b.len() {
            let k = b[a.len() as int].0;
            assert(count_of(keys, k) > 0);
            let j = choose|j: int| 0 <= j < a.len() && a[j].0 == k;
            assert(a[j] == b[j]);
        }
    } else {
        lemma_tallies_agree(a, b, keys, b.len() as int);
        let k = a[b.len() as int].0;
        assert(count_of(keys, k) > 0);
        let j = choose|j: int| 0 <= j < b.len() && b[j].0 == k;
        assert(a[j] == b[j]);
    }
    assert(a =~= b);
}

/// The tally of `keys`: each distinct key once, in increasing order, with
/// the number of its occurrences.
pub open spec fn tally_of(keys: Seq<u32>) -> Seq<(u32, usize)> {
    choose|t: Seq<(u32, usize)>| tallies(t, keys)
}

/// Counts the keys: each distinct key once, in increasing order.
pub fn tally(keys: &Vec<u32>) -> (t: Vec<(u32, usize)>)
    ensures
        tallies(t@, keys@),
        t@ == tally_of(keys@),
{
    let mut t: Vec<(u32, usize)> = Vec::new();
    let mut i: usize = 0;
    assert(keys@.take(0) =~= Seq::<u32>::empty());
    while i < keys.len()
        invariant
            i <= keys.len(),
            tallies(t@, keys@.take(i as int)),
        decreases keys.len() - i,
    {
        let k = keys[i];
        let mut j: usize = 0;
        while j < t.len() && t[j].0 < k
            invariant
                j <= t.len(),
                forall|x: int| 0 <= x < j ==> t@[x].0 < k,
            decreases t.len() - j,
        {
            j = j + 1;
        }
        let ghost old_t = t@;
        let ghost before = keys@.take(i as int);
        let ghost after = keys@.take(i + 1);
        proof {
            assert(after.drop_last() =~= before);
            assert(after.last() == k);
            assert forall|x: u32| #[trigger] count_of(after, x) == count_of(before, x) + if x == k {
                1nat
            } else {
                0nat
            } by {}
            lemma_count_bounded(before, k);
        }
        if j < t.len() && t[j].0 == k {
            let n = t[j].1;
            t.set(j, (k, n + 1));
            proof {
                assert forall|x: int| 0 <= x < t@.len() implies t@[x].1 == count_of(after, t@[x].0) && t@[x].1 > 0 by {
                    if x != j {
                        assert(old_t[x].0 != k);
                    }
                }
                assert forall|x: u32| count_of(after, x) > 0 implies exists|y: int| 0 <= y < t@.len() && t@[y].0 == x by {
                    if x == k {
                        assert(t@[j as int].0 == x);
                    } else {
                        let y = choose|y: int| 0 <= y < old_t.len() && old_t[y].0 == x;
                        assert(t@[y].0 == x);
                    }
                }
            }
        } else {
            proof {
                assert forall|x: int| j <= x < old_t.len() implies old_t[x].0 > k by {
                    if x > j {
                        assert(old_t[j as int].0 < old_t[x].0);
                    }
                }
                if count_of(before, k) > 0 {
                    let y = choose|y: int| 0 <= y < old_t.len() && old_t[y].0 == k;
                    assert(false);
                }
            }
            t.insert(j, (k, 1));
            proof {
                assert forall|x: int, y: int| 0 <= x < y < t@.len() implies t@[x].0 < t@[y].0 by {
                    if x < j && y > j {
                        assert(t@[y] == old_t[y - 1]);
                    } else if x > j {
                        assert(t@[x] == old_t[x - 1]);
                        assert(t@[y] == old_t[y - 1]);
                    }
                }
                assert forall|x: int| 0 <= x < t@.len() implies t@[x].1 == count_of(after, t@[x].0) && t@[x].1 > 0 by {
                    if x < j {
                        assert(t@[x] == old_t[x]);
                    } else if x > j {
                        assert(t@[x] == old_t[x - 1]);
                    }
                }
                assert forall|x: u32| count_of(after, x) > 0 implies exists|y: int| 0 <= y < t@.len() && t@[y].0 == x by {
                    if x == k {
                        assert(t@[j as int].0 == x);
                    } else {
                        let y = choose|y: int| 0 <= y < old_t.len() && old_t[y].0 == x;
                        if y < j {
                            assert(t@[y].0 == x);
                        } else {
                            assert(t@[y + 1].0 == x);
                        }
                    }
                }
            }
        }
        i = i + 1;
    }
    assert(keys@.take(keys.len() as int) =~= keys@);
    proof {
        law_tally_is_unique(t@, tally_of(keys@), keys@);
    }
    t
}

/// The number the BPF programs give a drop reason.
pub open spec fn reason_code(r: DropReason) -> u32 {
    match r {
        DropReason::Mac => 0,
        DropReason::Ipv4Acl => 1,
        DropReason::TcpPort => 2,
        DropReason::UdpPort => 3,
        DropReason::IpRateLimit => 4,
        DropReason::PortRateLimit => 5,
    }
}

fn reason_code_of(r: DropReason) -> (c: u32)
    ensures
        c == reason_code(r),
{
    match r {
        DropReason::Mac => 0,
        DropReason::Ipv4Acl => 1,
        DropReason::TcpPort => 2,
        DropReason::UdpPort => 3,
        DropReason::IpRateLimit => 4,
        DropReason::PortRateLimit => 5,
    }
}

fn reason_from_code(c: u32) -> (r: DropReason)
    requires
        c < 6,
    ensures
        reason_of(c as u8) == Some(r),
        reason_code(r) == c,
{
    match c {
        0 => DropReason::Mac,
        1 => DropReason::Ipv4Acl,
        2 => DropReason::TcpPort,
        3 => DropReason::UdpPort,
        4 => DropReason::IpRateLimit,
        _ => DropReason::PortRateLimit,
    }
}

/// The reasons of the events, as numbers, oldest first.
pub open spec fn reason_codes(events: Seq<KukriEvent>) -> Seq<u32> {
    events.map_values(|e: KukriEvent| reason_code(e.reason))
}

/// The addresses of the events dropped for `reason` that carry one.
pub open spec fn ip_keys(events: Seq<KukriEvent>, reason: DropReason) -> Seq<u32>
    decreases events.len(),
{
    if events.len() == 0 {
        Seq::empty()
    } else {
        let rest = ip_keys(events.drop_last(), reason);
        let e = events.last();
        if e.reason == reason && e.ip is Some {
            rest.push(e.ip.unwrap())
        } else {
            rest
        }
    }
}

/// The ports of the events dropped by the port rate limit that carry one.
pub open spec fn limited_port_keys(events: Seq<KukriEvent>) -> Seq<u32>
    decreases events.len(),
{
    if events.len() == 0 {
        Seq::empty()
    } else {
        let rest = limited_port_keys(events.drop_last());
        let e = events.last();
        if e.reason == DropReason::PortRateLimit && e.port is Some {
            rest.push(e.port.unwrap() as u32)
        } else {
            rest
        }
    }
}

/// One line per drop reason seen, in the order of the reasons.
pub open spec fn reason_rows(events: Seq<KukriEvent>) -> Seq<RowView> {
    tally_of(reason_codes(events)).map_values(
        |e: (u32, usize)|
            RowView::Info(reason_label(reason_of(e.0 as u8).unwrap()) + " dropped events: "@ + decimal(e.1 as nat)),
    )
}

/// One line per address in the tally, in address order.
pub open spec fn address_rows(t: Seq<(u32, usize)>, before: Seq<char>) -> Seq<RowView> {
    t.map_values(|e: (u32, usize)| RowView::Info(before + dotted_quad(e.0) + ": "@ + decimal(e.1 as nat)))
}

/// One line per port in the tally, in port order.
pub open spec fn port_rows(t: Seq<(u32, usize)>) -> Seq<RowView> {
    t.map_values(
        |e: (u32, usize)| RowView::Info("rate-limited port "@ + decimal(e.0 as nat) + ": "@ + decimal(e.1 as nat)),
    )
}

/// What the event stream part of the summary shows, after the packet count.
pub open spec fn event_rows(events: Seq<KukriEvent>) -> Seq<RowView> {
    reason_rows(events) + address_rows(tally_of(ip_keys(events, DropReason::Ipv4Acl)), "blocked IP "@)
        + address_rows(tally_of(ip_keys(events, DropReason::IpRateLimit)), "rate-limited IP "@)
        + port_rows(tally_of(limited_port_keys(events)))
}

/// The keys of the logged events that the summary counts.
fn event_keys(log: &EventLog) -> (r: (Vec<u32>, Vec<u32>, Vec<u32>, Vec<u32>))
    ensures
        r.0@ == reason_codes(log@),
        r.1@ == ip_keys(log@, DropReason::Ipv4Acl),
        r.2@ == ip_keys(log@, DropReason::IpRateLimit),
        r.3@ == limited_port_keys(log@),
{
    let mut reasons: Vec<u32> = Vec::new();
    let mut blocked: Vec<u32> = Vec::new();
    let mut limited: Vec<u32> = Vec::new();
    let mut ports: Vec<u32> = Vec::new();
    let n = log.len();
    let mut i: usize = 0;
    while i < n
        invariant
            n == log@.len(),
            i <= n,
            reasons@ == reason_codes(log@.take(i as int)),
            blocked@ == ip_keys(log@.take(i as int), DropReason::Ipv4Acl),
            limited@ == ip_keys(log@.take(i as int), DropReason::IpRateLimit),
            ports@ == limited_port_keys(log@.take(i as int)),
        decreases n - i,
    {
        let e = log.event(i);
        let ghost prefix = log@.take(i + 1);
        proof {
            assert(prefix.drop_last() =~= log@.take(i as int));
            assert(prefix.last() == *e);
        }
        reasons.push(reason_code_of(e.reason));
        assert(reasons@ =~= reason_codes(prefix));
        match e.reason {
            DropReason::Ipv4Acl => {
                if let Some(ip) = e.ip {
                    blocked.push(ip);
                }
            },
            DropReason::IpRateLimit => {
                if let Some(ip) = e.ip {
                    limited.push(ip);
                }
            },
            DropReason::PortRateLimit => {
                if let Some(port) = e.port {
                    ports.push(port as u32);
                }
            },
            _ => {},
        }
        i = i + 1;
    }
    assert(log@.take(n as int) =~= log@);
    (reasons, blocked, limited, ports)
}

/// Pushes `rows` after the rows already in `out`.
fn extend_rows(out: &mut Vec<Row>, rows: Vec<Row>)
    ensures
        rows_view(final(out)@) == rows_view(old(out)@) + rows_view(rows@),
{
    let mut rows = rows;
    let ghost moved = rows@;
    out.append(&mut rows);
    assert(rows_view(out@) =~= rows_view(old(out)@) + rows_view(moved));
}

/// One line of a tally: the texts around the key and its count.
fn count_line(before: &str, key: String, count: usize) -> (r: String)
    ensures
        r@ == before@ + key@ + ": "@ + decimal(count as nat),
{
    let mut t = String::from_str(before);
    t.append(key.as_str());
    t.append(": ");
    push_decimal64(&mut t, count as u64);
    t
}

fn push_event_rows(rows: &mut Vec<Row>, log: &EventLog)
    ensures
        rows_view(final(rows)@) == rows_view(old(rows)@) + event_rows(log@),
{
    let ghost start = rows_view(rows@);
    let (reasons, blocked, limited, ports) = event_keys(log);
    let r = tally(&reasons);
    let ghost want_r = reason_rows(log@);
    let mut i: usize = 0;
    while i < r.len()
        invariant
            i <= r.len(),
            r@ == tally_of(reason_codes(log@)),
            tallies(r@, reason_codes(log@)),
            want_r == reason_rows(log@),
            rows_view(rows@) == start + want_r.take(i as int),
        decreases r.len() - i,
    {
        let (code, count) = r[i];
        proof {
            lemma_counted_key_occurs(reason_codes(log@), code);
        }
        let reason = reason_from_code(code);
        let mut t = String::from_str(reason.label());
        t.append(" dropped events: ");
        push_decimal64(&mut t, count as u64);
        push_row(rows, Row::Info(t));
        assert(want_r.take(i + 1) =~= want_r.take(i as int).push(want_r[i as int]));
        i = i + 1;
    }
    assert(want_r.take(r.len() as int) =~= want_r);
    let b = tally(&blocked);
    push_address_rows(rows, &b, "blocked IP ");
    let l = tally(&limited);
    push_address_rows(rows, &l, "rate-limited IP ");
    let p = tally(&ports);
    let ghost want_p = port_rows(p@);
    let ghost mid = rows_view(rows@);
    let mut j: usize = 0;
    while j < p.len()
        invariant
            j <= p.len(),
            want_p == port_rows(p@),
            rows_view(rows@) == mid + want_p.take(j as int),
        decreases p.len() - j,
    {
        let (port, count) = p[j];
        let mut key = String::new();
        push_decimal(&mut key, port);
        push_row(rows, Row::Info(count_line("rate-limited port ", key, count)));
        assert(want_p.take(j + 1) =~= want_p.take(j as int).push(want_p[j as int]));
        j = j + 1;
    }
    assert(want_p.take(p.len() as int) =~= want_p);
    assert(rows_view(rows@) =~= start + event_rows(log@));
}

/// A key that a tally counts occurs in the keys.
proof fn lemma_counted_key_occurs(keys: Seq<u32>, k: u32)
    requires
        count_of(keys, k) > 0,
    ensures
        exists|i: int| 0 <= i < keys.len() && keys[i] == k,
    decreases keys.len(),
{
    if keys.last() != k {
        lemma_counted_key_occurs(keys.drop_last(), k);
        let i = choose|i: int| 0 <= i < keys.drop_last().len() && keys.drop_last()[i] == k;
        assert(keys[i] == k);
    } else {
        assert(keys[keys.len() - 1] == k);
    }
}

fn push_address_rows(rows: &mut Vec<Row>, t: &Vec<(u32, usize)>, before: &str)
    ensures
        rows_view(final(rows)@) == rows_view(old(rows)@) + address_rows(t@, before@),
{
    let ghost start = rows_view(rows@);
    let ghost want = address_rows(t@, before@);
    let mut i: usize = 0;
    while i < t.len()
        invariant
            i <= t.len(),
            want == address_rows(t@, before@),
            rows_view(rows@) == start + want.take(i as int),
        decreases t.len() - i,
    {
        let (ip, count) = t[i];
        let mut key = String::new();
        push_dotted_quad(&mut key, ip);
        push_row(rows, Row::Info(count_line(before, key, count)));
        assert(want.take(i + 1) =~= want.take(i as int).push(want[i as int]));
        i = i + 1;
    }
    assert(want.take(t.len() as int) =~= want);
}

// ---------------------------------------------------------------------------
// Summary page: attachments, and the whole page
// ---------------------------------------------------------------------------

/// What the summary shows of a loaded program: whether it is attached at
/// all, to which interfaces, and which of those run in generic XDP mode.
#[derive(Debug, Clone)]
pub struct Attachment {
    pub name: String,
    pub running: bool,
    pub interfaces: Vec<String>,
    pub generic: Vec<String>,
}

/// How an attached interface is listed.
pub open spec fn interface_part(a: Attachment, iface: Seq<char>) -> Seq<char> {
    if texts(a.generic@).contains(iface) {
        iface + " (generic XDP)"@
    } else {
        iface
    }
}

/// The attachment line of the program called `name`.
pub open spec fn attachment_text(progs: Seq<Attachment>, name: Seq<char>) -> Seq<char> {
    match first_index(progs.map_values(|a: Attachment| a.name@), name) {
        None => name + ": program not loaded"@,
        Some(i) => if !progs[i].running {
            name + ": NOT attached"@
        } else {
            name + ": attached to "@ + join(
                texts(progs[i].interfaces@).map_values(|iface: Seq<char>| interface_part(progs[i], iface)),
                ", "@,
            )
        },
    }
}

/// The attachment rows: one per direction's program.
pub open spec fn attachment_view(progs: Seq<Attachment>) -> Seq<RowView> {
    seq![
        RowView::Header("Attachment"@),
        RowView::Info(attachment_text(progs, program_name_of(crate::consts::Direction::Ingress))),
        RowView::Info(attachment_text(progs, program_name_of(crate::consts::Direction::Engress))),
    ]
}

fn attachment_line(programs: &Vec<Attachment>, name: &str) -> (r: String)
    ensures
        r@ == attachment_text(programs@, name@),
{
    let ghost names = programs@.map_values(|a: Attachment| a.name@);
    let mut i: usize = 0;
    while i < programs.len()
        invariant
            i <= programs.len(),
            names == programs@.map_values(|a: Attachment| a.name@),
            forall|j: int| 0 <= j < i ==> names[j] != name@,
        decreases programs.len() - i,
    {
        if crate::text::str_equals(programs[i].name.as_str(), name) {
            proof {
                assert(is_first_index(names, name@, i as int));
                let k = choose|k: int| is_first_index(names, name@, k);
                if k < i {
                    assert(names[k] != name@);
                } else if i < k {
                    assert(names[i as int] != name@);
                }
            }
            let prog = &programs[i];
            if !prog.running {
                return concat2(name, ": NOT attached");
            }
            let ghost want = texts(prog.interfaces@).map_values(|iface: Seq<char>| interface_part(*prog, iface));
            let mut parts: Vec<String> = Vec::new();
            let mut j: usize = 0;
            while j < prog.interfaces.len()
                invariant
                    j <= prog.interfaces.len(),
                    want == texts(prog.interfaces@).map_values(|iface: Seq<char>| interface_part(*prog, iface)),
                    texts(parts@) == want.take(j as int),
                decreases prog.interfaces.len() - j,
            {
                let iface = &prog.interfaces[j];
                let part = if contains_text(&prog.generic, iface.as_str()) {
                    concat2(iface.as_str(), " (generic XDP)")
                } else {
                    iface.clone()
                };
                assert(texts(prog.interfaces@)[j as int] == iface@);
                assert(part@ == interface_part(*prog, iface@));
                let ghost before = parts@;
                parts.push(part);
                assert(texts(parts@) =~= texts(before).push(want[j as int]));
                assert(want.take(j + 1) =~= want.take(j as int).push(want[j as int]));
                j = j + 1;
            }
            assert(want.take(prog.interfaces.len() as int) =~= want);
            let joined = join_strings(&parts, ", ");
            return concat3(name, ": attached to ", joined.as_str());
        }
        i = i + 1;
    }
    proof {
        if exists|k: int| is_first_index(names, name@, k) {
            let k = choose|k: int| is_first_index(names, name@, k);
            assert(names[k] == name@);
        }
    }
    concat2(name, ": program not loaded")
}

pub fn attachment_rows(programs: &Vec<Attachment>) -> (rows: Vec<Row>)
    ensures
        rows_view(rows@) == attachment_view(programs@),
{
    let mut rows: Vec<Row> = Vec::new();
    push_row(&mut rows, Row::Header(String::from_str("Attachment")));
    let ingress = attachment_line(programs, program_name(crate::consts::Direction::Ingress));
    push_row(&mut rows, Row::Info(ingress));
    let engress = attachment_line(programs, program_name(crate::consts::Direction::Engress));
    push_row(&mut rows, Row::Info(engress));
    assert(rows_view(rows@) =~= attachment_view(programs@));
    rows
}

/// The whole Summary page.
pub open spec fn summary_view(c: ACLConfig, progs: Seq<Attachment>, packets: u64, events: Seq<KukriEvent>) -> Seq<
    RowView,
> {
    attachment_view(progs) + layer2_view(c) + layer3_view(c) + layer4_view(c) + seq![
        RowView::Header("Event stream"@),
        RowView::Info("packets processed: "@ + decimal(packets as nat)),
    ] + event_rows(events)
}

pub fn summary_rows(config: &ACLConfig, programs: &Vec<Attachment>, packets: u64, log: &EventLog) -> (rows: Vec<Row>)
    ensures
        rows_view(rows@) == summary_view(*config, programs@, packets, log@),
{
    let mut rows = attachment_rows(programs);
    extend_rows(&mut rows, layer2_rows(config));
    extend_rows(&mut rows, layer3_rows(config));
    extend_rows(&mut rows, layer4_rows(config));
    push_row(&mut rows, Row::Header(String::from_str("Event stream")));
    let mut t = String::from_str("packets processed: ");
    push_decimal64(&mut t, packets);
    push_row(&mut rows, Row::Info(t));
    push_event_rows(&mut rows, log);
    assert(rows_view(rows@) =~= summary_view(*config, programs@, packets, log@));
    rows
}

// ---------------------------------------------------------------------------
// Drawing helpers
// ---------------------------------------------------------------------------

/// A rectangle of terminal cells.
#[derive(Debug, Clone, Copy, PartialEq, Eq, Structural)]
pub struct Area {
    pub x: u16,
    pub y: u16,
    pub width: u16,
    pub height: u16,
}

/// A `width` x `height` rectangle centred in `area`, shrunk to fit it.
pub fn centered_rect(width: u16, height: u16, area: Area) -> (r: Area)
    requires
        area.x + area.width <= u16::MAX,
        area.y + area.height <= u16::MAX,
    ensures
        r.width == if width < area.width { width } else { area.width },
        r.height == if height < area.height { height } else { area.height },
        r.x == area.x + (area.width - r.width) / 2,
        r.y == area.y + (area.height - r.height) / 2,
{
    let width = if width < area.width { width } else { area.width };
    let height = if height < area.height { height } else { area.height };
    let x = area.x + (area.width - width) / 2;
    let y = area.y + (area.height - height) / 2;
    Area { x, y, width, height }
}

/// The text a row is drawn with: switches and interfaces get a check box,
/// read-only lines an indent, list entries a bullet and a hint.
pub open spec fn row_text(r: RowView, c: ACLConfig) -> Seq<char> {
    match r {
        RowView::Header(t) => t,
        RowView::Bool(f, label) => (if crate::settings::bool_value(f, c) {
            "[x]"@
        } else {
            "[ ]"@
        }) + " "@ + label,
        RowView::Iface(name, on) => (if on {
            "[x]"@
        } else {
            "[ ]"@
        }) + " "@ + name,
        RowView::Info(t) => "  "@ + t,
        RowView::Item(_, _, label) => "    - "@ + label + "  (d to remove)"@,
        RowView::AddNew(_, label) => label,
    }
}

pub fn row_line(row: &Row, config: &ACLConfig) -> (r: String)
    ensures
        r@ == row_text(row@, *config),
{
    match row {
        Row::Header(t) => t.clone(),
        Row::Bool(f, label) => concat3(if f.get(config) { "[x]" } else { "[ ]" }, " ", label.as_str()),
        Row::Iface(name, on) => concat3(if *on { "[x]" } else { "[ ]" }, " ", name.as_str()),
        Row::Info(t) => concat2("  ", t.as_str()),
        Row::Item(_, _, label) => concat3("    - ", label.as_str(), "  (d to remove)"),
        Row::AddNew(_, label) => label.clone(),
    }
}

// ---------------------------------------------------------------------------
// The event stream's counts
// ---------------------------------------------------------------------------

/// How many entries of `t` come before the first one whose key is `k` or
/// more.
spec fn lower(t: Seq<(u32, usize)>, k: u32) -> nat
    decreases t.len(),
{
    if t.len() == 0 {
        0
    } else if t[0].0 < k {
        1 + lower(t.drop_first(), k)
    } else {
        0
    }
}

proof fn lemma_lower(t: Seq<(u32, usize)>, k: u32)
    requires
        forall|i: int, j: int| 0 <= i < j < t.len() ==> t[i].0 < t[j].0,
    ensures
        lower(t, k) <= t.len(),
        forall|i: int| 0 <= i < lower(t, k) ==> t[i].0 < k,
        lower(t, k) < t.len() ==> t[lower(t, k) as int].0 >= k,
    decreases t.len(),
{
    if t.len() > 0 && t[0].0 < k {
        let rest = t.drop_first();
        assert forall|i: int, j: int| 0 <= i < j < rest.len() implies rest[i].0 < rest[j].0 by {
            assert(rest[i] == t[i + 1] && rest[j] == t[j + 1]);
        }
        lemma_lower(rest, k);
        assert forall|i: int| 0 <= i < lower(t, k) implies t[i].0 < k by {
            if i > 0 {
                assert(rest[i - 1] == t[i]);
            }
        }
        if lower(t, k) < t.len() {
            assert(rest[lower(rest, k) as int] == t[lower(t, k) as int]);
        }
    }
}

/// Every run of keys that fits in memory has a tally.
pub proof fn lemma_tally_exists(keys: Seq<u32>)
    requires
        keys.len() <= usize::MAX,
    ensures
        tallies(tally_of(keys), keys),
    decreases keys.len(),
{
    if keys.len() == 0 {
        let t = Seq::<(u32, usize)>::empty();
        assert(tallies(t, keys));
    } else {
        let before = keys.drop_last();
        let k = keys.last();
        lemma_tally_exists(before);
        let t = tally_of(before);
        assert(keys.drop_last() =~= before);
        assert forall|x: u32| #[trigger] count_of(keys, x) == count_of(before, x) + if x == k {
            1nat
        } else {
            0nat
        } by {}
        lemma_count_bounded(before, k);
        lemma_lower(t, k);
        let j = lower(t, k) as int;
        let nt = if j < t.len() && t[j].0 == k {
            t.update(j, (k, (t[j].1 + 1) as usize))
        } else {
            t.insert(j, (k, 1usize))
        };
        if j < t.len() && t[j].0 == k {
            assert forall|x: int| 0 <= x < nt.len() implies nt[x].1 == count_of(keys, nt[x].0) && nt[x].1 > 0 by {
                if x != j {
                    assert(t[x].0 != k);
                }
            }
            assert forall|x: u32| count_of(keys, x) > 0 implies exists|y: int| 0 <= y < nt.len() && nt[y].0 == x by {
                if x == k {
                    assert(nt[j].0 == x);
                } else {
                    let y = choose|y: int| 0 <= y < t.len() && t[y].0 == x;
                    assert(nt[y].0 == x);
                }
            }
            assert(tallies(nt, keys));
        } else {
            assert forall|x: int| j <= x < t.len() implies t[x].0 > k by {
                if x > j {
                    assert(t[j].0 < t[x].0);
                }
            }
            if count_of(before, k) > 0 {
                let y = choose|y: int| 0 <= y < t.len() && t[y].0 == k;
                assert(false);
            }
            assert forall|x: int, y: int| 0 <= x < y < nt.len() implies nt[x].0 < nt[y].0 by {
                if x < j && y > j {
                    assert(nt[y] == t[y - 1]);
                } else if x > j {
                    assert(nt[x] == t[x - 1]);
                    assert(nt[y] == t[y - 1]);
                }
            }
            assert forall|x: int| 0 <= x < nt.len() implies nt[x].1 == count_of(keys, nt[x].0) && nt[x].1 > 0 by {
                if x < j {
                    assert(nt[x] == t[x]);
                } else if x > j {
                    assert(nt[x] == t[x - 1]);
                }
            }
            assert forall|x: u32| count_of(keys, x) > 0 implies exists|y: int| 0 <= y < nt.len() && nt[y].0 == x by {
                if x == k {
                    assert(nt[j].0 == x);
                } else {
                    let y = choose|y: int| 0 <= y < t.len() && t[y].0 == x;
                    if y < j {
                        assert(nt[y].0 == x);
                    } else {
                        assert(nt[y + 1].0 == x);
                    }
                }
            }
            assert(tallies(nt, keys));
        }
    }
}

/// How many of `events` were dropped for `reason`.
pub open spec fn events_with_reason(events: Seq<KukriEvent>, reason: DropReason) -> nat
    decreases events.len(),
{
    if events.len() == 0 {
        0
    } else {
        events_with_reason(events.drop_last(), reason) + if events.last().reason == reason {
            1nat
        } else {
            0nat
        }
    }
}

proof fn lemma_reason_counts(events: Seq<KukriEvent>, reason: DropReason)
    ensures
        count_of(reason_codes(events), reason_code(reason)) == events_with_reason(events, reason),
    decreases events.len(),
{
    if events.len() > 0 {
        lemma_reason_counts(events.drop_last(), reason);
        assert(reason_codes(events).drop_last() =~= reason_codes(events.drop_last()));
    }
}

/// The event stream part of the summary has one row per drop reason that
/// occurs, in the order of the reasons, with the number of events dropped
/// for it, and none for a reason that does not occur; then one row per
/// address blocked by the IPv4 ACL, in ascending order, with the number of
/// its events (and likewise for rate-limited addresses and ports).
pub proof fn law_event_rows_count_the_log(events: Seq<KukriEvent>)
    requires
        events.len() <= usize::MAX,
    ensures
        ({
            let t = tally_of(reason_codes(events));
            &&& reason_rows(events).len() == t.len()
            &&& forall|i: int, j: int| 0 <= i < j < t.len() ==> t[i].0 < t[j].0
            &&& forall|i: int|
                0 <= i < t.len() ==> t[i].0 < 6 && {
                    let r = reason_of(t[i].0 as u8).unwrap();
                    &&& reason_code(r) == t[i].0
                    &&& t[i].1 == events_with_reason(events, r) && t[i].1 > 0
                    &&& #[trigger] reason_rows(events)[i] == RowView::Info(
                        reason_label(r) + " dropped events: "@ + decimal(events_with_reason(events, r)),
                    )
                }
            &&& forall|r: DropReason|
                #[trigger] events_with_reason(events, r) > 0 ==> exists|i: int| 0 <= i < t.len() && t[i].0 == reason_code(r)
        }),
        tallies(tally_of(ip_keys(events, DropReason::Ipv4Acl)), ip_keys(events, DropReason::Ipv4Acl)),
        tallies(tally_of(ip_keys(events, DropReason::IpRateLimit)), ip_keys(events, DropReason::IpRateLimit)),
        tallies(tally_of(limited_port_keys(events)), limited_port_keys(events)),
{
    let codes = reason_codes(events);
    let t = tally_of(codes);
    lemma_tally_exists(codes);
    lemma_ip_keys_len(events, DropReason::Ipv4Acl);
    lemma_ip_keys_len(events, DropReason::IpRateLimit);
    lemma_port_keys_len(events);
    lemma_tally_exists(ip_keys(events, DropReason::Ipv4Acl));
    lemma_tally_exists(ip_keys(events, DropReason::IpRateLimit));
    lemma_tally_exists(limited_port_keys(events));
    assert forall|i: int| 0 <= i < t.len() implies t[i].0 < 6 && {
        let r = reason_of(t[i].0 as u8).unwrap();
        &&& reason_code(r) == t[i].0
        &&& t[i].1 == events_with_reason(events, r) && t[i].1 > 0
        &&& #[trigger] reason_rows(events)[i] == RowView::Info(
            reason_label(r) + " dropped events: "@ + decimal(events_with_reason(events, r)),
        )
    } by {
        lemma_counted_key_occurs(codes, t[i].0);
        let k = choose|k: int| 0 <= k < codes.len() && codes[k] == t[i].0;
        let r = reason_of(t[i].0 as u8).unwrap();
        assert(reason_code(events[k].reason) == t[i].0);
        assert(r == events[k].reason);
        lemma_reason_counts(events, r);
    }
    assert forall|r: DropReason| #[trigger] events_with_reason(events, r) > 0 implies exists|i: int|
        0 <= i < t.len() && t[i].0 == reason_code(r) by {
        lemma_reason_counts(events, r);
    }
}

/// The Summary page ends with the event stream: the packet counter, then
/// one row per drop reason that occurs (as `law_event_rows_count_the_log`
/// states), then one row per address blocked by the IPv4 ACL, in
/// ascending order, with the number of its events.
pub proof fn law_summary_rows_report_the_log(c: ACLConfig, progs: Seq<Attachment>, packets: u64, events: Seq<KukriEvent>)
    requires
        events.len() <= usize::MAX,
    ensures
        ({
            let page = summary_view(c, progs, packets, events);
            let stream = event_rows(events);
            let base = page.len() - stream.len();
            let r = reason_rows(events).len();
            let blocked = tally_of(ip_keys(events, DropReason::Ipv4Acl));
            &&& base >= 2
            &&& page[base - 2] == RowView::Header("Event stream"@)
            &&& page[base - 1] == RowView::Info("packets processed: "@ + decimal(packets as nat))
            &&& page.subrange(base, page.len() as int) == stream
            &&& stream.take(r as int) == reason_rows(events)
            &&& forall|i: int, j: int| 0 <= i < j < blocked.len() ==> blocked[i].0 < blocked[j].0
            &&& forall|k: u32| count_of(ip_keys(events, DropReason::Ipv4Acl), k) > 0
                ==> exists|i: int| 0 <= i < blocked.len() && blocked[i].0 == k
            &&& forall|i: int| 0 <= i < blocked.len() ==> #[trigger] stream[r + i] == RowView::Info(
                "blocked IP "@ + dotted_quad(blocked[i].0) + ": "@ + decimal(
                    count_of(ip_keys(events, DropReason::Ipv4Acl), blocked[i].0),
                ),
            ) && count_of(ip_keys(events, DropReason::Ipv4Acl), blocked[i].0) > 0
        }),
{
    law_event_rows_count_the_log(events);
    let page = summary_view(c, progs, packets, events);
    let stream = event_rows(events);
    let front = attachment_view(progs) + layer2_view(c) + layer3_view(c) + layer4_view(c) + seq![
        RowView::Header("Event stream"@),
        RowView::Info("packets processed: "@ + decimal(packets as nat)),
    ];
    assert(page == front + stream);
    let base = front.len() as int;
    assert(page.subrange(base, page.len() as int) =~= stream);
    let reasons = reason_rows(events);
    let keys = ip_keys(events, DropReason::Ipv4Acl);
    let blocked = tally_of(keys);
    let rest = address_rows(blocked, "blocked IP "@)
        + address_rows(tally_of(ip_keys(events, DropReason::IpRateLimit)), "rate-limited IP "@)
        + port_rows(tally_of(limited_port_keys(events)));
    assert(stream =~= reasons + rest);
    assert(stream.take(reasons.len() as int) =~= reasons);
    assert forall|i: int| 0 <= i < blocked.len() implies #[trigger] stream[reasons.len() + i] == RowView::Info(
        "blocked IP "@ + dotted_quad(blocked[i].0) + ": "@ + decimal(count_of(keys, blocked[i].0)),
    ) && count_of(keys, blocked[i].0) > 0 by {
        assert(stream[reasons.len() + i] == rest[i]);
        assert(rest[i] == address_rows(blocked, "blocked IP "@)[i]);
    }
}

proof fn lemma_ip_keys_len(events: Seq<KukriEvent>, reason: DropReason)
    ensures
        ip_keys(events, reason).len() <= events.len(),
    decreases events.len(),
{
    if events.len() > 0 {
        lemma_ip_keys_len(events.drop_last(), reason);
    }
}

proof fn lemma_port_keys_len(events: Seq<KukriEvent>)
    ensures
        limited_port_keys(events).len() <= events.len(),
    decreases events.len(),
{
    if events.len() > 0 {
        lemma_port_keys_len(events.drop_last());
    }
}

// ---------------------------------------------------------------------------
// The shape of the IP section
// ---------------------------------------------------------------------------

/// How many of `rows` satisfy `p`.
pub open spec fn count_rows(rows: Seq<RowView>, p: spec_fn(RowView) -> bool) -> nat
    decreases rows.len(),
{
    if rows.len() == 0 {
        0
    } else {
        count_rows(rows.drop_last(), p) + if p(rows.last()) {
            1nat
        } else {
            0nat
        }
    }
}

/// The "add" row of the list `f`.
pub open spec fn add_row_of(f: ListField) -> spec_fn(RowView) -> bool {
    |r: RowView| (r matches RowView::AddNew(g, _) && g == f)
}

/// An entry row of the list `f`.
pub open spec fn item_row_of(f: ListField) -> spec_fn(RowView) -> bool {
    |r: RowView| (r matches RowView::Item(g, _, _) && g == f)
}

/// The row of the switch `b`.
pub open spec fn switch_row_of(b: BoolField) -> spec_fn(RowView) -> bool {
    |r: RowView| (r matches RowView::Bool(g, _) && g == b)
}

/// The lists that the IP section edits.
pub open spec fn ip_list_field(f: ListField) -> bool {
    match f {
        ListField::BlockedIps(_) | ListField::BlockedCidrRanges(_) | ListField::BlockedIps6(_)
        | ListField::BlockedCidrRanges6(_) => true,
        _ => false,
    }
}

/// The switches that the IP section shows.
pub open spec fn ip_switch_field(b: BoolField) -> bool {
    match b {
        BoolField::EnableRules(_) | BoolField::EnableIpRules(_) | BoolField::DisableLoopback(_)
        | BoolField::EnableIpv6Rules(_) | BoolField::DisableLoopback6(_) | BoolField::EnableIpRateLimit(_)
        | BoolField::EnablePortRateLimit(_) => true,
        _ => false,
    }
}

proof fn lemma_count_add(a: Seq<RowView>, b: Seq<RowView>, p: spec_fn(RowView) -> bool)
    ensures
        count_rows(a + b, p) == count_rows(a, p) + count_rows(b, p),
    decreases b.len(),
{
    if b.len() == 0 {
        assert(a + b =~= a);
    } else {
        lemma_count_add(a, b.drop_last(), p);
        assert((a + b).drop_last() =~= a + b.drop_last());
        assert((a + b).last() == b.last());
    }
}

proof fn lemma_count_const(s: Seq<RowView>, p: spec_fn(RowView) -> bool, v: bool)
    requires
        forall|i: int| 0 <= i < s.len() ==> p(#[trigger] s[i]) == v,
    ensures
        count_rows(s, p) == if v { s.len() } else { 0 },
    decreases s.len(),
{
    if s.len() > 0 {
        let front = s.drop_last();
        assert forall|i: int| 0 <= i < front.len() implies p(#[trigger] front[i]) == v by {
            assert(front[i] == s[i]);
        }
        lemma_count_const(front, p, v);
    }
}

proof fn lemma_count_one(x: RowView, p: spec_fn(RowView) -> bool)
    ensures
        count_rows(seq![x], p) == if p(x) { 1nat } else { 0nat },
{
    assert(seq![x].drop_last() =~= Seq::<RowView>::empty());
    assert(seq![x].last() == x);
    assert(count_rows(Seq::<RowView>::empty(), p) == 0);
}

/// The counts of a list's rows: its add row, its entries, and no switch.
proof fn lemma_list_rows_counts(f: ListField, c: ACLConfig, h: Seq<char>, a: Seq<char>, g: ListField, b: BoolField)
    ensures
        count_rows(list_rows(f, c, h, a), add_row_of(g)) == if f == g { 1nat } else { 0nat },
        count_rows(list_rows(f, c, h, a), item_row_of(g)) == if f == g { list_entries(f, c).len() } else { 0 },
        count_rows(list_rows(f, c, h, a), switch_row_of(b)) == 0,
{
    let items = Seq::new(
        list_entries(f, c).len(),
        |i: int| RowView::Item(f, i as nat, entry_label(list_entries(f, c)[i])),
    );
    assert(list_rows(f, c, h, a) == seq![RowView::Header(h)] + items + seq![RowView::AddNew(f, a)]);
    let ps = seq![add_row_of(g), item_row_of(g), switch_row_of(b)];
    assert forall|k: int| 0 <= k < 3 implies count_rows(list_rows(f, c, h, a), #[trigger] ps[k]) == count_rows(
        seq![RowView::Header(h)],
        ps[k],
    ) + count_rows(items, ps[k]) + count_rows(seq![RowView::AddNew(f, a)], ps[k]) by {
        lemma_count_add(seq![RowView::Header(h)] + items, seq![RowView::AddNew(f, a)], ps[k]);
        lemma_count_add(seq![RowView::Header(h)], items, ps[k]);
    }
    lemma_count_one(RowView::Header(h), add_row_of(g));
    lemma_count_one(RowView::Header(h), item_row_of(g));
    lemma_count_one(RowView::Header(h), switch_row_of(b));
    lemma_count_one(RowView::AddNew(f, a), add_row_of(g));
    lemma_count_one(RowView::AddNew(f, a), item_row_of(g));
    lemma_count_one(RowView::AddNew(f, a), switch_row_of(b));
    lemma_count_const(items, add_row_of(g), false);
    lemma_count_const(items, switch_row_of(b), false);
    lemma_count_const(items, item_row_of(g), f == g);
    assert(ps[0] == add_row_of(g));
    assert(ps[1] == item_row_of(g));
    assert(ps[2] == switch_row_of(b));
}

/// The entries of the list `f` stand in `rows` from position `o` on, one
/// after another in list order, and its add row right after them.
pub open spec fn list_placed_at(rows: Seq<RowView>, f: ListField, c: ACLConfig, o: int) -> bool {
    let n = list_entries(f, c).len();
    &&& 0 <= o && o + n < rows.len()
    &&& forall|i: int| 0 <= i < n ==> #[trigger] rows[o + i] == RowView::Item(f, i as nat, entry_label(list_entries(f, c)[i]))
    &&& (add_row_of(f))(rows[o + n])
}

/// The entries of the list `f` sit right after its header, followed by its
/// add row, wherever its rows stand among others.
proof fn lemma_list_rows_at(pre: Seq<RowView>, f: ListField, c: ACLConfig, h: Seq<char>, a: Seq<char>, post: Seq<RowView>)
    ensures
        list_placed_at(pre + list_rows(f, c, h, a) + post, f, c, pre.len() as int + 1),
{
    let rows = pre + list_rows(f, c, h, a) + post;
    let n = list_entries(f, c).len();
    let lr = list_rows(f, c, h, a);
    assert forall|i: int| 0 <= i < n implies rows[pre.len() + 1 + i] == RowView::Item(f, i as nat, entry_label(list_entries(f, c)[i])) by {
        assert(rows[pre.len() + 1 + i] == lr[1 + i]);
    }
    assert(rows[pre.len() + 1 + n as int] == lr[1 + n as int]);
}

/// The counts of one direction's block of the IP section, for one list
/// `g` and one switch `b`.
proof fn lemma_ip_block_counts(c: ACLConfig, d: Direction, g: ListField, b: BoolField)
    ensures
        count_rows(ip_block(c, d), add_row_of(g)) == if ip_list_field(g) && list_dir(g) == d { 1nat } else { 0nat },
        count_rows(ip_block(c, d), item_row_of(g)) == if ip_list_field(g) && list_dir(g) == d {
            list_entries(g, c).len()
        } else {
            0
        },
        count_rows(ip_block(c, d), switch_row_of(b)) == if ip_switch_field(b) && switch_dir(b) == d { 1nat } else { 0nat },
{
    let p = peer(d);
    let head = seq![
        RowView::Header(direction_heading(d)),
        RowView::Bool(
            BoolField::EnableRules(d),
            "Enable rules (master switch — attaches/detaches the BPF program)"@,
        ),
        RowView::Bool(BoolField::EnableIpRules(d), "Enable IPv4 rules"@),
        RowView::Bool(BoolField::DisableLoopback(d), "Disable IPv4 loopback"@),
    ];
    let l1 = list_rows(ListField::BlockedIps(d), c, "Blocked "@ + p + " IPv4 IPs"@, "+ add "@ + p + " IPv4 IP"@);
    let l2 = list_rows(
        ListField::BlockedCidrRanges(d),
        c,
        "Blocked "@ + p + " IPv4 CIDR ranges"@,
        "+ add "@ + p + " CIDR range (a.b.c.d/prefix)"@,
    );
    let v6 = seq![
        RowView::Bool(BoolField::EnableIpv6Rules(d), "Enable IPv6 rules"@),
        RowView::Bool(BoolField::DisableLoopback6(d), "Disable IPv6 loopback"@),
    ];
    let l3 = list_rows(ListField::BlockedIps6(d), c, "Blocked "@ + p + " IPv6 IPs"@, "+ add "@ + p + " IPv6 IP"@);
    let l4 = list_rows(
        ListField::BlockedCidrRanges6(d),
        c,
        "Blocked "@ + p + " IPv6 CIDR ranges"@,
        "+ add "@ + p + " CIDR range (ipv6-address/prefix)"@,
    );
    let rate = seq![
        RowView::Header("Rate limit"@),
        RowView::Bool(BoolField::EnableIpRateLimit(d), "Enable per-"@ + p + "-IP rate limit"@),
        RowView::Info("IP limit: "@ + decimal(rate_of(c, d).0 as nat) + " packets/s (0 = unlimited)"@),
        RowView::Bool(BoolField::EnablePortRateLimit(d), "Enable per-destination-port rate limit"@),
        RowView::Info("Port limit: "@ + decimal(rate_of(c, d).1 as nat) + " packets/s (0 = unlimited)"@),
    ];
    assert(ip_block(c, d) == head + l1 + l2 + v6 + l3 + l4 + rate);
    let ps = seq![add_row_of(g), item_row_of(g), switch_row_of(b)];
    assert forall|k: int| 0 <= k < 3 implies count_rows(ip_block(c, d), #[trigger] ps[k]) == count_rows(head, ps[k])
        + count_rows(l1, ps[k]) + count_rows(l2, ps[k]) + count_rows(v6, ps[k]) + count_rows(l3, ps[k])
        + count_rows(l4, ps[k]) + count_rows(rate, ps[k]) by {
        let q = ps[k];
        lemma_count_add(head + l1 + l2 + v6 + l3 + l4, rate, q);
        lemma_count_add(head + l1 + l2 + v6 + l3, l4, q);
        lemma_count_add(head + l1 + l2 + v6, l3, q);
        lemma_count_add(head + l1 + l2, v6, q);
        lemma_count_add(head + l1, l2, q);
        lemma_count_add(head, l1, q);
    }
    assert(ps[0] == add_row_of(g));
    assert(ps[1] == item_row_of(g));
    assert(ps[2] == switch_row_of(b));
    lemma_list_rows_counts(ListField::BlockedIps(d), c, "Blocked "@ + p + " IPv4 IPs"@, "+ add "@ + p + " IPv4 IP"@, g, b);
    lemma_list_rows_counts(ListField::BlockedCidrRanges(d), c, "Blocked "@ + p + " IPv4 CIDR ranges"@, "+ add "@ + p + " CIDR range (a.b.c.d/prefix)"@, g, b);
    lemma_list_rows_counts(ListField::BlockedIps6(d), c, "Blocked "@ + p + " IPv6 IPs"@, "+ add "@ + p + " IPv6 IP"@, g, b);
    lemma_list_rows_counts(ListField::BlockedCidrRanges6(d), c, "Blocked "@ + p + " IPv6 CIDR ranges"@, "+ add "@ + p + " CIDR range (ipv6-address/prefix)"@, g, b);
    lemma_count_lits(head, add_row_of(g));
    lemma_count_lits(head, item_row_of(g));
    lemma_count_lits(head, switch_row_of(b));
    lemma_count_lits(v6, add_row_of(g));
    lemma_count_lits(v6, item_row_of(g));
    lemma_count_lits(v6, switch_row_of(b));
    lemma_count_lits(rate, add_row_of(g));
    lemma_count_lits(rate, item_row_of(g));
    lemma_count_lits(rate, switch_row_of(b));
}

/// The count of a short run of rows, row by row.
proof fn lemma_count_lits(s: Seq<RowView>, p: spec_fn(RowView) -> bool)
    requires
        s.len() <= 5,
    ensures
        count_rows(s, p) == (if s.len() > 0 && p(s[0]) { 1nat } else { 0nat }) + (if s.len() > 1 && p(s[1]) {
            1nat
        } else {
            0nat
        }) + (if s.len() > 2 && p(s[2]) { 1nat } else { 0nat }) + (if s.len() > 3 && p(s[3]) { 1nat } else {
            0nat
        }) + (if s.len() > 4 && p(s[4]) { 1nat } else { 0nat }),
    decreases s.len(),
{
    if s.len() > 0 {
        let front = s.drop_last();
        lemma_count_lits(front, p);
        assert forall|i: int| 0 <= i < front.len() implies front[i] == s[i] by {}
    }
}

/// The direction of a list.
pub open spec fn list_dir(f: ListField) -> Direction {
    match f {
        ListField::BlockedPorts(d, _) | ListField::BlockedPortRanges(d, _) => d,
        ListField::BlockedIps(d) | ListField::BlockedIps6(d) | ListField::BlockedCidrRanges(d)
        | ListField::BlockedCidrRanges6(d) | ListField::BlockedMacs(d) => d,
    }
}

/// The direction of a switch.
pub open spec fn switch_dir(b: BoolField) -> Direction {
    match b {
        BoolField::EnableRules(d) | BoolField::EnableIpRules(d) | BoolField::EnableIpv6Rules(d)
        | BoolField::DisableLoopback(d) | BoolField::DisableLoopback6(d) | BoolField::EnableMacRules(d)
        | BoolField::EnableIpRateLimit(d) | BoolField::EnablePortRateLimit(d) => d,
        BoolField::EnablePortRules(d, _) => d,
    }
}

/// The IP section lists each of its eight lists once: the entries of a
/// list come one after another, in list order and labelled as shown,
/// directly followed by the list's one "add" row, and no entry of the list
/// stands anywhere else. Each of its fourteen switches has exactly one row.
pub proof fn law_ip_rows_structure(c: ACLConfig)
    ensures
        forall|f: ListField| #[trigger] ip_list_field(f) ==> {
            let rows = ip_rows_view(c);
            let n = list_entries(f, c).len();
            &&& count_rows(rows, add_row_of(f)) == 1
            &&& count_rows(rows, item_row_of(f)) == n
            &&& exists|o: int| #[trigger] list_placed_at(rows, f, c, o)
        },
        forall|b: BoolField| #[trigger] ip_switch_field(b) ==> count_rows(ip_rows_view(c), switch_row_of(b)) == 1,
{
    let rows = ip_rows_view(c);
    let ing = ip_block(c, Direction::Ingress);
    let eng = ip_block(c, Direction::Engress);
    assert forall|f: ListField| #[trigger] ip_list_field(f) implies {
        let n = list_entries(f, c).len();
        &&& count_rows(rows, add_row_of(f)) == 1
        &&& count_rows(rows, item_row_of(f)) == n
        &&& exists|o: int| #[trigger] list_placed_at(rows, f, c, o)
    } by {
        let b = BoolField::EnableRules(Direction::Ingress);
        lemma_ip_block_counts(c, Direction::Ingress, f, b);
        lemma_ip_block_counts(c, Direction::Engress, f, b);
        lemma_count_add(ing, eng, add_row_of(f));
        lemma_count_add(ing, eng, item_row_of(f));
        lemma_ip_list_placed(c, f);
    }
    assert forall|b: BoolField| #[trigger] ip_switch_field(b) implies count_rows(rows, switch_row_of(b)) == 1 by {
        let f = ListField::BlockedIps(Direction::Ingress);
        lemma_ip_block_counts(c, Direction::Ingress, f, b);
        lemma_ip_block_counts(c, Direction::Engress, f, b);
        lemma_count_add(ing, eng, switch_row_of(b));
    }
}

/// Where the rows of an IP list stand in the IP section.
#[verifier::spinoff_prover]
#[verifier::rlimit(25)]
proof fn lemma_ip_list_placed(c: ACLConfig, f: ListField)
    requires
        ip_list_field(f),
    ensures
        ({
            let rows = ip_rows_view(c);
            let n = list_entries(f, c).len();
            exists|o: int| #[trigger] list_placed_at(rows, f, c, o)
        }),
{
    let rows = ip_rows_view(c);
    let n = list_entries(f, c).len();
    let d = list_dir(f);
    let p = peer(d);
    let head = seq![
        RowView::Header(direction_heading(d)),
        RowView::Bool(
            BoolField::EnableRules(d),
            "Enable rules (master switch — attaches/detaches the BPF program)"@,
        ),
        RowView::Bool(BoolField::EnableIpRules(d), "Enable IPv4 rules"@),
        RowView::Bool(BoolField::DisableLoopback(d), "Disable IPv4 loopback"@),
    ];
    let h1 = "Blocked "@ + p + " IPv4 IPs"@;
    let a1 = "+ add "@ + p + " IPv4 IP"@;
    let h2 = "Blocked "@ + p + " IPv4 CIDR ranges"@;
    let a2 = "+ add "@ + p + " CIDR range (a.b.c.d/prefix)"@;
    let h3 = "Blocked "@ + p + " IPv6 IPs"@;
    let a3 = "+ add "@ + p + " IPv6 IP"@;
    let h4 = "Blocked "@ + p + " IPv6 CIDR ranges"@;
    let a4 = "+ add "@ + p + " CIDR range (ipv6-address/prefix)"@;
    let l1 = list_rows(ListField::BlockedIps(d), c, h1, a1);
    let l2 = list_rows(ListField::BlockedCidrRanges(d), c, h2, a2);
    let v6 = seq![
        RowView::Bool(BoolField::EnableIpv6Rules(d), "Enable IPv6 rules"@),
        RowView::Bool(BoolField::DisableLoopback6(d), "Disable IPv6 loopback"@),
    ];
    let l3 = list_rows(ListField::BlockedIps6(d), c, h3, a3);
    let l4 = list_rows(ListField::BlockedCidrRanges6(d), c, h4, a4);
    let rate = seq![
        RowView::Header("Rate limit"@),
        RowView::Bool(BoolField::EnableIpRateLimit(d), "Enable per-"@ + p + "-IP rate limit"@),
        RowView::Info("IP limit: "@ + decimal(rate_of(c, d).0 as nat) + " packets/s (0 = unlimited)"@),
        RowView::Bool(BoolField::EnablePortRateLimit(d), "Enable per-destination-port rate limit"@),
        RowView::Info("Port limit: "@ + decimal(rate_of(c, d).1 as nat) + " packets/s (0 = unlimited)"@),
    ];
    let block = ip_block(c, d);
    assert(block == head + l1 + l2 + v6 + l3 + l4 + rate);
    let (before, after) = if d == Direction::Ingress {
        (Seq::<RowView>::empty(), ip_block(c, Direction::Engress))
    } else {
        (ip_block(c, Direction::Ingress), Seq::<RowView>::empty())
    };
    assert(rows =~= before + block + after);
    match f {
        ListField::BlockedIps(_) => {
            let pre = before + head;
            let post = l2 + v6 + l3 + l4 + rate + after;
            assert(rows =~= pre + l1 + post);
            lemma_list_rows_at(pre, f, c, h1, a1, post);
        },
        ListField::BlockedCidrRanges(_) => {
            let pre = before + head + l1;
            let post = v6 + l3 + l4 + rate + after;
            assert(rows =~= pre + l2 + post);
            lemma_list_rows_at(pre, f, c, h2, a2, post);
        },
        ListField::BlockedIps6(_) => {
            let pre = before + head + l1 + l2 + v6;
            let post = l4 + rate + after;
            assert(rows =~= pre + l3 + post);
            lemma_list_rows_at(pre, f, c, h3, a3, post);
        },
        ListField::BlockedCidrRanges6(_) => {
            let pre = before + head + l1 + l2 + v6 + l3;
            let post = rate + after;
            assert(rows =~= pre + l4 + post);
            lemma_list_rows_at(pre, f, c, h4, a4, post);
        },
        _ => {},
    }
}

} // verus!
