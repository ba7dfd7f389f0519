//! The optional rule stages: which BPF programs are stages, for which
//! direction and feature, and which slot of the tail-call table each one
//! occupies when it is enabled.
use vstd::prelude::*;
use vstd::string::*;
use crate::bpf::ProgramInfo;
use crate::events::{ne_value, u32_from_ne_bytes};
use crate::settings::{Direction, Proto};
use crate::text::{chars_of, has_prefix, starts_with, str_equals, string_of_window, window};

verus! {

/// A rule feature that a stage program implements.
#[derive(Debug, Clone, Copy, PartialEq, Eq, Hash, Structural)]
pub enum Feature {
    Mac,
    Ipv4Acl,
    Ipv6Acl,
    IpRateLimit,
    PortRateLimit,
    Port(Proto),
}

/// Where an enabled stage lives: its slot in the tail-call table, and the
/// program that fills it.
#[derive(Debug, Clone, Copy, PartialEq, Eq, Structural)]
pub struct StageSlot {
    pub index: u32,
    pub fd: i32,
}

/// The slot numbers that the BPF object publishes in its read-only data,
/// one per stage program.
#[derive(Debug, Clone, Copy)]
pub struct StageSlots {
    pub eth_firewall: u32,
    pub ingress_ipv4_acl_stage: u32,
    pub ingress_ipv6_acl_stage: u32,
    pub ingress_ip_rate_limit_stage: u32,
    pub ingress_port_rate_limit_stage: u32,
    pub ingress_tcp_port_stage: u32,
    pub ingress_udp_port_stage: u32,
    pub engress_eth_firewall: u32,
    pub engress_ipv4_acl_stage: u32,
    pub engress_ipv6_acl_stage: u32,
    pub engress_ip_rate_limit_stage: u32,
    pub engress_port_rate_limit_stage: u32,
    pub engress_tcp_port_stage: u32,
    pub engress_udp_port_stage: u32,
}

/// The feature of a stage, by the part of its name after the direction.
pub open spec fn stage_feature(stage: Seq<char>) -> Option<Feature> {
    if stage == "ipv4_acl_stage"@ {
        Some(Feature::Ipv4Acl)
    } else if stage == "ipv6_acl_stage"@ {
        Some(Feature::Ipv6Acl)
    } else if stage == "ip_rate_limit_stage"@ {
        Some(Feature::IpRateLimit)
    } else if stage == "port_rate_limit_stage"@ {
        Some(Feature::PortRateLimit)
    } else if stage == "tcp_port_stage"@ {
        Some(Feature::Port(Proto::Tcp))
    } else if stage == "udp_port_stage"@ {
        Some(Feature::Port(Proto::Udp))
    } else {
        None
    }
}

/// The direction and feature of the program named `name`, if it is a
/// stage. The two MAC stages keep their historical names.
pub open spec fn classify(name: Seq<char>) -> Option<(Direction, Feature)> {
    if name == "eth_firewall"@ {
        Some((Direction::Ingress, Feature::Mac))
    } else if name == "engress_eth_firewall"@ {
        Some((Direction::Engress, Feature::Mac))
    } else if has_prefix(name, "engress_"@) {
        match stage_feature(name.skip("engress_"@.len() as int)) {
            Some(f) => Some((Direction::Engress, f)),
            None => None,
        }
    } else if has_prefix(name, "ingress_"@) {
        match stage_feature(name.skip("ingress_"@.len() as int)) {
            Some(f) => Some((Direction::Ingress, f)),
            None => None,
        }
    } else {
        None
    }
}

/// The slot that `r` publishes for the program named `name`.
pub open spec fn slot_of(name: Seq<char>, r: StageSlots) -> Option<u32> {
    if name == "eth_firewall"@ {
        Some(r.eth_firewall)
    } else if name == "ingress_ipv4_acl_stage"@ {
        Some(r.ingress_ipv4_acl_stage)
    } else if name == "ingress_ipv6_acl_stage"@ {
        Some(r.ingress_ipv6_acl_stage)
    } else if name == "ingress_ip_rate_limit_stage"@ {
        Some(r.ingress_ip_rate_limit_stage)
    } else if name == "ingress_port_rate_limit_stage"@ {
        Some(r.ingress_port_rate_limit_stage)
    } else if name == "ingress_tcp_port_stage"@ {
        Some(r.ingress_tcp_port_stage)
    } else if name == "ingress_udp_port_stage"@ {
        Some(r.ingress_udp_port_stage)
    } else if name == "engress_eth_firewall"@ {
        Some(r.engress_eth_firewall)
    } else if name == "engress_ipv4_acl_stage"@ {
        Some(r.engress_ipv4_acl_stage)
    } else if name == "engress_ipv6_acl_stage"@ {
        Some(r.engress_ipv6_acl_stage)
    } else if name == "engress_ip_rate_limit_stage"@ {
        Some(r.engress_ip_rate_limit_stage)
    } else if name == "engress_port_rate_limit_stage"@ {
        Some(r.engress_port_rate_limit_stage)
    } else if name == "engress_tcp_port_stage"@ {
        Some(r.engress_tcp_port_stage)
    } else if name == "engress_udp_port_stage"@ {
        Some(r.engress_udp_port_stage)
    } else {
        None
    }
}

fn stage_feature_of(stage: &str) -> (r: Option<Feature>)
    ensures
        r == stage_feature(stage@),
{
    if str_equals(stage, "ipv4_acl_stage") {
        Some(Feature::Ipv4Acl)
    } else if str_equals(stage, "ipv6_acl_stage") {
        Some(Feature::Ipv6Acl)
    } else if str_equals(stage, "ip_rate_limit_stage") {
        Some(Feature::IpRateLimit)
    } else if str_equals(stage, "port_rate_limit_stage") {
        Some(Feature::PortRateLimit)
    } else if str_equals(stage, "tcp_port_stage") {
        Some(Feature::Port(Proto::Tcp))
    } else if str_equals(stage, "udp_port_stage") {
        Some(Feature::Port(Proto::Udp))
    } else {
        None
    }
}

/// The direction and feature of the program named `name`, or `None` for
/// programs that are not optional rule stages (entry hooks, protocol
/// handlers, anything else).
pub fn classify_stage(name: &str) -> (r: Option<(Direction, Feature)>)
    ensures
        r == classify(name@),
{
    if str_equals(name, "eth_firewall") {
        return Some((Direction::Ingress, Feature::Mac));
    }
    if str_equals(name, "engress_eth_firewall") {
        return Some((Direction::Engress, Feature::Mac));
    }
    let v = chars_of(name);
    let n = v.len();
    let (direction, skip) = if starts_with(&v, "engress_") {
        (Direction::Engress, "engress_".unicode_len())
    } else if starts_with(&v, "ingress_") {
        (Direction::Ingress, "ingress_".unicode_len())
    } else {
        return None;
    };
    let stage = string_of_window(&v, skip, n);
    assert(stage@ =~= name@.skip(skip as int));
    match stage_feature_of(stage.as_str()) {
        Some(f) => Some((direction, f)),
        None => None,
    }
}

/// The slot that `rodata` publishes for the program named `name`.
pub fn slot_index(name: &str, rodata: &StageSlots) -> (r: Option<u32>)
    ensures
        r == slot_of(name@, *rodata),
{
    if str_equals(name, "eth_firewall") {
        Some(rodata.eth_firewall)
    } else if str_equals(name, "ingress_ipv4_acl_stage") {
        Some(rodata.ingress_ipv4_acl_stage)
    } else if str_equals(name, "ingress_ipv6_acl_stage") {
        Some(rodata.ingress_ipv6_acl_stage)
    } else if str_equals(name, "ingress_ip_rate_limit_stage") {
        Some(rodata.ingress_ip_rate_limit_stage)
    } else if str_equals(name, "ingress_port_rate_limit_stage") {
        Some(rodata.ingress_port_rate_limit_stage)
    } else if str_equals(name, "ingress_tcp_port_stage") {
        Some(rodata.ingress_tcp_port_stage)
    } else if str_equals(name, "ingress_udp_port_stage") {
        Some(rodata.ingress_udp_port_stage)
    } else if str_equals(name, "engress_eth_firewall") {
        Some(rodata.engress_eth_firewall)
    } else if str_equals(name, "engress_ipv4_acl_stage") {
        Some(rodata.engress_ipv4_acl_stage)
    } else if str_equals(name, "engress_ipv6_acl_stage") {
        Some(rodata.engress_ipv6_acl_stage)
    } else if str_equals(name, "engress_ip_rate_limit_stage") {
        Some(rodata.engress_ip_rate_limit_stage)
    } else if str_equals(name, "engress_port_rate_limit_stage") {
        Some(rodata.engress_port_rate_limit_stage)
    } else if str_equals(name, "engress_tcp_port_stage") {
        Some(rodata.engress_tcp_port_stage)
    } else if str_equals(name, "engress_udp_port_stage") {
        Some(rodata.engress_udp_port_stage)
    } else {
        None
    }
}

/// A name made of a direction prefix and a stage part starts with that
/// prefix, and the stage part is what follows it.
proof fn lemma_prefixed_name(prefix: Seq<char>, stage: Seq<char>)
    ensures
        has_prefix(prefix + stage, prefix),
        (prefix + stage).skip(prefix.len() as int) == stage,
{
    assert((prefix + stage).subrange(0, prefix.len() as int) =~= prefix);
    assert((prefix + stage).skip(prefix.len() as int) =~= stage);
}

/// A name that starts with a prefix is that prefix followed by the rest.
proof fn lemma_split_prefixed(name: Seq<char>, prefix: Seq<char>)
    requires
        has_prefix(name, prefix),
    ensures
        name == prefix + name.skip(prefix.len() as int),
{
    assert(name =~= name.subrange(0, prefix.len() as int) + name.skip(prefix.len() as int));
}

/// Exactly the programs that are classified as stages have a slot in the
/// published slot table, so looking up the slot of a stage never fails.
pub proof fn law_every_stage_has_a_slot(name: Seq<char>, r: StageSlots)
    ensures
        classify(name) is Some <==> slot_of(name, r) is Some,
{
    reveal_strlit("eth_firewall");
    reveal_strlit("engress_eth_firewall");
    reveal_strlit("engress_");
    reveal_strlit("ingress_");
    reveal_strlit("ipv4_acl_stage");
    reveal_strlit("ipv6_acl_stage");
    reveal_strlit("ip_rate_limit_stage");
    reveal_strlit("port_rate_limit_stage");
    reveal_strlit("tcp_port_stage");
    reveal_strlit("udp_port_stage");
    reveal_strlit("ingress_ipv4_acl_stage");
    reveal_strlit("ingress_ipv6_acl_stage");
    reveal_strlit("ingress_ip_rate_limit_stage");
    reveal_strlit("ingress_port_rate_limit_stage");
    reveal_strlit("ingress_tcp_port_stage");
    reveal_strlit("ingress_udp_port_stage");
    reveal_strlit("engress_ipv4_acl_stage");
    reveal_strlit("engress_ipv6_acl_stage");
    reveal_strlit("engress_ip_rate_limit_stage");
    reveal_strlit("engress_port_rate_limit_stage");
    reveal_strlit("engress_tcp_port_stage");
    reveal_strlit("engress_udp_port_stage");
    assert("ingress_ipv4_acl_stage"@ =~= "ingress_"@ + "ipv4_acl_stage"@);
    assert("ingress_ipv6_acl_stage"@ =~= "ingress_"@ + "ipv6_acl_stage"@);
    assert("ingress_ip_rate_limit_stage"@ =~= "ingress_"@ + "ip_rate_limit_stage"@);
    assert("ingress_port_rate_limit_stage"@ =~= "ingress_"@ + "port_rate_limit_stage"@);
    assert("ingress_tcp_port_stage"@ =~= "ingress_"@ + "tcp_port_stage"@);
    assert("ingress_udp_port_stage"@ =~= "ingress_"@ + "udp_port_stage"@);
    assert("engress_ipv4_acl_stage"@ =~= "engress_"@ + "ipv4_acl_stage"@);
    assert("engress_ipv6_acl_stage"@ =~= "engress_"@ + "ipv6_acl_stage"@);
    assert("engress_ip_rate_limit_stage"@ =~= "engress_"@ + "ip_rate_limit_stage"@);
    assert("engress_port_rate_limit_stage"@ =~= "engress_"@ + "port_rate_limit_stage"@);
    assert("engress_tcp_port_stage"@ =~= "engress_"@ + "tcp_port_stage"@);
    assert("engress_udp_port_stage"@ =~= "engress_"@ + "udp_port_stage"@);
    let ing = "ingress_"@;
    let eng = "engress_"@;
    lemma_prefixed_name("ingress_"@, "ipv4_acl_stage"@);
    lemma_prefixed_name("ingress_"@, "ipv6_acl_stage"@);
    lemma_prefixed_name("ingress_"@, "ip_rate_limit_stage"@);
    lemma_prefixed_name("ingress_"@, "port_rate_limit_stage"@);
    lemma_prefixed_name("ingress_"@, "tcp_port_stage"@);
    lemma_prefixed_name("ingress_"@, "udp_port_stage"@);
    lemma_prefixed_name("engress_"@, "ipv4_acl_stage"@);
    lemma_prefixed_name("engress_"@, "ipv6_acl_stage"@);
    lemma_prefixed_name("engress_"@, "ip_rate_limit_stage"@);
    lemma_prefixed_name("engress_"@, "port_rate_limit_stage"@);
    lemma_prefixed_name("engress_"@, "tcp_port_stage"@);
    lemma_prefixed_name("engress_"@, "udp_port_stage"@);
    if has_prefix(name, eng) {
        lemma_split_prefixed(name, eng);
    }
    if has_prefix(name, ing) {
        lemma_split_prefixed(name, ing);
    }
    if has_prefix(name, ing) && has_prefix(name, eng) {
        assert(name[0] == ing[0]);
        assert(name[0] == eng[0]);
    }
}


/// The names of the fourteen stage programs.
pub open spec fn stage_names() -> Seq<Seq<char>> {
    seq![
        "eth_firewall"@,
        "ingress_ipv4_acl_stage"@,
        "ingress_ipv6_acl_stage"@,
        "ingress_ip_rate_limit_stage"@,
        "ingress_port_rate_limit_stage"@,
        "ingress_tcp_port_stage"@,
        "ingress_udp_port_stage"@,
        "engress_eth_firewall"@,
        "engress_ipv4_acl_stage"@,
        "engress_ipv6_acl_stage"@,
        "engress_ip_rate_limit_stage"@,
        "engress_port_rate_limit_stage"@,
        "engress_tcp_port_stage"@,
        "engress_udp_port_stage"@,
    ]
}

/// The direction and feature of each stage program, in the order of
/// `stage_names`.
pub open spec fn stage_pairs() -> Seq<(Direction, Feature)> {
    seq![
        (Direction::Ingress, Feature::Mac),
        (Direction::Ingress, Feature::Ipv4Acl),
        (Direction::Ingress, Feature::Ipv6Acl),
        (Direction::Ingress, Feature::IpRateLimit),
        (Direction::Ingress, Feature::PortRateLimit),
        (Direction::Ingress, Feature::Port(Proto::Tcp)),
        (Direction::Ingress, Feature::Port(Proto::Udp)),
        (Direction::Engress, Feature::Mac),
        (Direction::Engress, Feature::Ipv4Acl),
        (Direction::Engress, Feature::Ipv6Acl),
        (Direction::Engress, Feature::IpRateLimit),
        (Direction::Engress, Feature::PortRateLimit),
        (Direction::Engress, Feature::Port(Proto::Tcp)),
        (Direction::Engress, Feature::Port(Proto::Udp)),
    ]
}

/// Exactly the fourteen stage names classify as stages, each to its own
/// direction and feature, and every direction and feature has its stage:
/// no other program (an entry hook, a protocol handler, an unknown name)
/// is ever taken for a stage.
pub proof fn law_exactly_the_stage_names_classify(name: Seq<char>)
    ensures
        stage_names().len() == 14 && stage_pairs().len() == 14,
        forall|i: int| 0 <= i < 14 ==> classify(#[trigger] stage_names()[i]) == Some(stage_pairs()[i]),
        classify(name) is Some <==> stage_names().contains(name),
        forall|i: int, j: int| 0 <= i < 14 && 0 <= j < 14 && i != j ==> stage_pairs()[i] != stage_pairs()[j],
        forall|d: Direction, f: Feature| #[trigger] stage_pairs().contains((d, f)),
{
    let r = StageSlots {
        eth_firewall: 0,
        ingress_ipv4_acl_stage: 0,
        ingress_ipv6_acl_stage: 0,
        ingress_ip_rate_limit_stage: 0,
        ingress_port_rate_limit_stage: 0,
        ingress_tcp_port_stage: 0,
        ingress_udp_port_stage: 0,
        engress_eth_firewall: 0,
        engress_ipv4_acl_stage: 0,
        engress_ipv6_acl_stage: 0,
        engress_ip_rate_limit_stage: 0,
        engress_port_rate_limit_stage: 0,
        engress_tcp_port_stage: 0,
        engress_udp_port_stage: 0,
    };
    let names = stage_names();
    let pairs = stage_pairs();
    law_every_stage_has_a_slot(name, r);
    lemma_stage_literals();
    if classify(name) is Some {
        assert(slot_of(name, r) is Some);
        assert(exists|i: int| 0 <= i < names.len() && names[i] == name) by {
            if name == "eth_firewall"@ { assert(names[0] == name); }
            if name == "ingress_ipv4_acl_stage"@ { assert(names[1] == name); }
            if name == "ingress_ipv6_acl_stage"@ { assert(names[2] == name); }
            if name == "ingress_ip_rate_limit_stage"@ { assert(names[3] == name); }
            if name == "ingress_port_rate_limit_stage"@ { assert(names[4] == name); }
            if name == "ingress_tcp_port_stage"@ { assert(names[5] == name); }
            if name == "ingress_udp_port_stage"@ { assert(names[6] == name); }
            if name == "engress_eth_firewall"@ { assert(names[7] == name); }
            if name == "engress_ipv4_acl_stage"@ { assert(names[8] == name); }
            if name == "engress_ipv6_acl_stage"@ { assert(names[9] == name); }
            if name == "engress_ip_rate_limit_stage"@ { assert(names[10] == name); }
            if name == "engress_port_rate_limit_stage"@ { assert(names[11] == name); }
            if name == "engress_tcp_port_stage"@ { assert(names[12] == name); }
            if name == "engress_udp_port_stage"@ { assert(names[13] == name); }
        }
    }
    if names.contains(name) {
        let i = choose|i: int| 0 <= i < names.len() && names[i] == name;
        assert(classify(names[i]) is Some);
    }
    assert forall|d: Direction, f: Feature| #[trigger] pairs.contains((d, f)) by {
        let i: int = match (d, f) {
            (Direction::Ingress, Feature::Mac) => 0,
            (Direction::Ingress, Feature::Ipv4Acl) => 1,
            (Direction::Ingress, Feature::Ipv6Acl) => 2,
            (Direction::Ingress, Feature::IpRateLimit) => 3,
            (Direction::Ingress, Feature::PortRateLimit) => 4,
            (Direction::Ingress, Feature::Port(Proto::Tcp)) => 5,
            (Direction::Ingress, Feature::Port(Proto::Udp)) => 6,
            (Direction::Engress, Feature::Mac) => 7,
            (Direction::Engress, Feature::Ipv4Acl) => 8,
            (Direction::Engress, Feature::Ipv6Acl) => 9,
            (Direction::Engress, Feature::IpRateLimit) => 10,
            (Direction::Engress, Feature::PortRateLimit) => 11,
            (Direction::Engress, Feature::Port(Proto::Tcp)) => 12,
            (Direction::Engress, Feature::Port(Proto::Udp)) => 13,
        };
        assert(pairs[i] == (d, f));
    }
}

/// What each of the fourteen stage names classifies as.
proof fn lemma_stage_literals()
    ensures
        forall|i: int| 0 <= i < 14 ==> classify(#[trigger] stage_names()[i]) == Some(stage_pairs()[i]),
{
    reveal_strlit("eth_firewall");
    reveal_strlit("engress_eth_firewall");
    reveal_strlit("engress_");
    reveal_strlit("ingress_");
    reveal_strlit("ipv4_acl_stage");
    reveal_strlit("ipv6_acl_stage");
    reveal_strlit("ip_rate_limit_stage");
    reveal_strlit("port_rate_limit_stage");
    reveal_strlit("tcp_port_stage");
    reveal_strlit("udp_port_stage");
    reveal_strlit("ingress_ipv4_acl_stage");
    assert("ingress_ipv4_acl_stage"@ =~= "ingress_"@ + "ipv4_acl_stage"@);
    lemma_prefixed_name("ingress_"@, "ipv4_acl_stage"@);
    reveal_strlit("ingress_ipv6_acl_stage");
    assert("ingress_ipv6_acl_stage"@ =~= "ingress_"@ + "ipv6_acl_stage"@);
    lemma_prefixed_name("ingress_"@, "ipv6_acl_stage"@);
    reveal_strlit("ingress_ip_rate_limit_stage");
    assert("ingress_ip_rate_limit_stage"@ =~= "ingress_"@ + "ip_rate_limit_stage"@);
    lemma_prefixed_name("ingress_"@, "ip_rate_limit_stage"@);
    reveal_strlit("ingress_port_rate_limit_stage");
    assert("ingress_port_rate_limit_stage"@ =~= "ingress_"@ + "port_rate_limit_stage"@);
    lemma_prefixed_name("ingress_"@, "port_rate_limit_stage"@);
    reveal_strlit("ingress_tcp_port_stage");
    assert("ingress_tcp_port_stage"@ =~= "ingress_"@ + "tcp_port_stage"@);
    lemma_prefixed_name("ingress_"@, "tcp_port_stage"@);
    reveal_strlit("ingress_udp_port_stage");
    assert("ingress_udp_port_stage"@ =~= "ingress_"@ + "udp_port_stage"@);
    lemma_prefixed_name("ingress_"@, "udp_port_stage"@);
    reveal_strlit("engress_ipv4_acl_stage");
    assert("engress_ipv4_acl_stage"@ =~= "engress_"@ + "ipv4_acl_stage"@);
    lemma_prefixed_name("engress_"@, "ipv4_acl_stage"@);
    reveal_strlit("engress_ipv6_acl_stage");
    assert("engress_ipv6_acl_stage"@ =~= "engress_"@ + "ipv6_acl_stage"@);
    lemma_prefixed_name("engress_"@, "ipv6_acl_stage"@);
    reveal_strlit("engress_ip_rate_limit_stage");
    assert("engress_ip_rate_limit_stage"@ =~= "engress_"@ + "ip_rate_limit_stage"@);
    lemma_prefixed_name("engress_"@, "ip_rate_limit_stage"@);
    reveal_strlit("engress_port_rate_limit_stage");
    assert("engress_port_rate_limit_stage"@ =~= "engress_"@ + "port_rate_limit_stage"@);
    lemma_prefixed_name("engress_"@, "port_rate_limit_stage"@);
    reveal_strlit("engress_tcp_port_stage");
    assert("engress_tcp_port_stage"@ =~= "engress_"@ + "tcp_port_stage"@);
    lemma_prefixed_name("engress_"@, "tcp_port_stage"@);
    reveal_strlit("engress_udp_port_stage");
    assert("engress_udp_port_stage"@ =~= "engress_"@ + "udp_port_stage"@);
    lemma_prefixed_name("engress_"@, "udp_port_stage"@);
    let ing = "ingress_"@;
    let eng = "engress_"@;
    assert(ing[0] != eng[0]);
    assert("ipv6_acl_stage"@[3] != "ipv4_acl_stage"@[3]);
    assert("tcp_port_stage"@[0] != "ipv4_acl_stage"@[0]);
    assert("tcp_port_stage"@[0] != "ipv6_acl_stage"@[0]);
    assert("udp_port_stage"@[0] != "ipv4_acl_stage"@[0]);
    assert("udp_port_stage"@[0] != "ipv6_acl_stage"@[0]);
    assert("udp_port_stage"@[0] != "tcp_port_stage"@[0]);
    assert(classify("eth_firewall"@) == Some((Direction::Ingress, Feature::Mac)));
    assert(classify("ingress_ipv4_acl_stage"@) == Some((Direction::Ingress, Feature::Ipv4Acl))) by {
        let name = "ingress_ipv4_acl_stage"@;
        assert(name.len() != 12 && name.len() != 20);
        assert(name[0] == ing[0]);
        assert(!has_prefix(name, eng)) by { assert(name.subrange(0, 8)[0] == name[0]); }
    }
    assert(classify("ingress_ipv6_acl_stage"@) == Some((Direction::Ingress, Feature::Ipv6Acl))) by {
        let name = "ingress_ipv6_acl_stage"@;
        assert(name.len() != 12 && name.len() != 20);
        assert(name[0] == ing[0]);
        assert(!has_prefix(name, eng)) by { assert(name.subrange(0, 8)[0] == name[0]); }
    }
    assert(classify("ingress_ip_rate_limit_stage"@) == Some((Direction::Ingress, Feature::IpRateLimit))) by {
        let name = "ingress_ip_rate_limit_stage"@;
        assert(name.len() != 12 && name.len() != 20);
        assert(name[0] == ing[0]);
        assert(!has_prefix(name, eng)) by { assert(name.subrange(0, 8)[0] == name[0]); }
    }
    assert(classify("ingress_port_rate_limit_stage"@) == Some((Direction::Ingress, Feature::PortRateLimit))) by {
        let name = "ingress_port_rate_limit_stage"@;
        assert(name.len() != 12 && name.len() != 20);
        assert(name[0] == ing[0]);
        assert(!has_prefix(name, eng)) by { assert(name.subrange(0, 8)[0] == name[0]); }
    }
    assert(classify("ingress_tcp_port_stage"@) == Some((Direction::Ingress, Feature::Port(Proto::Tcp)))) by {
        let name = "ingress_tcp_port_stage"@;
        assert(name.len() != 12 && name.len() != 20);
        assert(name[0] == ing[0]);
        assert(!has_prefix(name, eng)) by { assert(name.subrange(0, 8)[0] == name[0]); }
    }
    assert(classify("ingress_udp_port_stage"@) == Some((Direction::Ingress, Feature::Port(Proto::Udp)))) by {
        let name = "ingress_udp_port_stage"@;
        assert(name.len() != 12 && name.len() != 20);
        assert(name[0] == ing[0]);
        assert(!has_prefix(name, eng)) by { assert(name.subrange(0, 8)[0] == name[0]); }
    }
    assert(classify("engress_eth_firewall"@) == Some((Direction::Engress, Feature::Mac)));
    assert(classify("engress_ipv4_acl_stage"@) == Some((Direction::Engress, Feature::Ipv4Acl))) by {
        let name = "engress_ipv4_acl_stage"@;
        assert(name.len() != 12 && name.len() != 20);
    }
    assert(classify("engress_ipv6_acl_stage"@) == Some((Direction::Engress, Feature::Ipv6Acl))) by {
        let name = "engress_ipv6_acl_stage"@;
        assert(name.len() != 12 && name.len() != 20);
    }
    assert(classify("engress_ip_rate_limit_stage"@) == Some((Direction::Engress, Feature::IpRateLimit))) by {
        let name = "engress_ip_rate_limit_stage"@;
        assert(name.len() != 12 && name.len() != 20);
    }
    assert(classify("engress_port_rate_limit_stage"@) == Some((Direction::Engress, Feature::PortRateLimit))) by {
        let name = "engress_port_rate_limit_stage"@;
        assert(name.len() != 12 && name.len() != 20);
    }
    assert(classify("engress_tcp_port_stage"@) == Some((Direction::Engress, Feature::Port(Proto::Tcp)))) by {
        let name = "engress_tcp_port_stage"@;
        assert(name.len() != 12 && name.len() != 20);
    }
    assert(classify("engress_udp_port_stage"@) == Some((Direction::Engress, Feature::Port(Proto::Udp)))) by {
        let name = "engress_udp_port_stage"@;
        assert(name.len() != 12 && name.len() != 20);
    }
    assert forall|i: int| 0 <= i < 14 implies classify(#[trigger] stage_names()[i]) == Some(stage_pairs()[i]) by {
        if i == 0 { assert(stage_names()[i] == "eth_firewall"@); }
        if i == 1 { assert(stage_names()[i] == "ingress_ipv4_acl_stage"@); }
        if i == 2 { assert(stage_names()[i] == "ingress_ipv6_acl_stage"@); }
        if i == 3 { assert(stage_names()[i] == "ingress_ip_rate_limit_stage"@); }
        if i == 4 { assert(stage_names()[i] == "ingress_port_rate_limit_stage"@); }
        if i == 5 { assert(stage_names()[i] == "ingress_tcp_port_stage"@); }
        if i == 6 { assert(stage_names()[i] == "ingress_udp_port_stage"@); }
        if i == 7 { assert(stage_names()[i] == "engress_eth_firewall"@); }
        if i == 8 { assert(stage_names()[i] == "engress_ipv4_acl_stage"@); }
        if i == 9 { assert(stage_names()[i] == "engress_ipv6_acl_stage"@); }
        if i == 10 { assert(stage_names()[i] == "engress_ip_rate_limit_stage"@); }
        if i == 11 { assert(stage_names()[i] == "engress_port_rate_limit_stage"@); }
        if i == 12 { assert(stage_names()[i] == "engress_tcp_port_stage"@); }
        if i == 13 { assert(stage_names()[i] == "engress_udp_port_stage"@); }
    }
}

/// The stage slots found among `programs` (by name and program), as
/// `discover_stage_slots` keeps them: a later program of the same
/// direction and feature replaces an earlier one.
pub open spec fn slots_found(programs: Seq<(Seq<char>, i32)>, r: StageSlots) -> Map<(Direction, Feature), StageSlot>
    decreases programs.len(),
{
    if programs.len() == 0 {
        Map::empty()
    } else {
        let found = slots_found(programs.drop_last(), r);
        let (name, fd) = programs.last();
        match classify(name) {
            Some(key) => found.insert(key, StageSlot { index: slot_of(name, r).unwrap(), fd }),
            None => found,
        }
    }
}

/// The first program among `programs` that is a stage without a slot.
pub open spec fn is_first_unslotted(programs: Seq<(Seq<char>, i32)>, r: StageSlots, k: int) -> bool {
    &&& 0 <= k < programs.len()
    &&& classify(programs[k].0) is Some && slot_of(programs[k].0, r) is None
    &&& forall|j: int| 0 <= j < k ==> !(classify(#[trigger] programs[j].0) is Some && slot_of(programs[j].0, r) is None)
}

/// Once the BPF object publishes its slot table, discovering the stage
/// slots cannot fail: every stage program among `programs` finds its slot.
pub proof fn law_discovery_never_fails(programs: Seq<(Seq<char>, i32)>, r: StageSlots)
    ensures
        !exists|k: int| is_first_unslotted(programs, r, k),
{
    assert forall|k: int| !is_first_unslotted(programs, r, k) by {
        if 0 <= k < programs.len() {
            law_every_stage_has_a_slot(programs[k].0, r);
        }
    }
}

/// The name and program of each of `programs`.
pub open spec fn program_refs(programs: Seq<ProgramInfo>) -> Seq<(Seq<char>, i32)> {
    programs.map_values(|p: ProgramInfo| (p.name@, p.fd))
}

/// The map from (direction, feature) to slot held by `entries`, whose keys
/// are all different.
pub open spec fn entries_map(entries: Seq<((Direction, Feature), StageSlot)>) -> Map<(Direction, Feature), StageSlot> {
    Map::new(
        |k: (Direction, Feature)| exists|i: int| 0 <= i < entries.len() && entries[i].0 == k,
        |k: (Direction, Feature)| entries[choose|i: int| 0 <= i < entries.len() && entries[i].0 == k].1,
    )
}

/// No key occurs twice among `entries`.
pub open spec fn keys_unique(entries: Seq<((Direction, Feature), StageSlot)>) -> bool {
    forall|i: int, j: int| 0 <= i < entries.len() && 0 <= j < entries.len() && i != j ==> entries[i].0 != entries[j].0
}

fn same_key(a: (Direction, Feature), b: (Direction, Feature)) -> (r: bool)
    ensures
        r == (a == b),
{
    a.0 == b.0 && a.1 == b.1
}

/// Inserts or replaces the slot of `key`.
fn put_slot(entries: &mut Vec<((Direction, Feature), StageSlot)>, key: (Direction, Feature), slot: StageSlot)
    requires
        keys_unique(old(entries)@),
    ensures
        keys_unique(final(entries)@),
        entries_map(final(entries)@) == entries_map(old(entries)@).insert(key, slot),
{
    let ghost before = entries@;
    let mut i: usize = 0;
    while i < entries.len()
        invariant
            i <= entries.len(),
            entries@ == before,
            before == old(entries)@,
            keys_unique(before),
            forall|j: int| 0 <= j < i ==> entries@[j].0 != key,
        decreases entries.len() - i,
    {
        if same_key(entries[i].0, key) {
            entries.set(i, (key, slot));
            proof {
                let after = entries@;
                assert forall|a: int, b: int| 0 <= a < after.len() && 0 <= b < after.len() && a != b implies after[a].0 != after[b].0 by {
                    if a != i && b != i {
                        assert(after[a] == before[a]);
                        assert(after[b] == before[b]);
                    } else if a == i {
                        assert(before[i as int].0 == key);
                    } else {
                        assert(before[i as int].0 == key);
                    }
                }
                assert forall|k: (Direction, Feature)| #![auto] entries_map(after).dom().contains(k) == entries_map(before).insert(key, slot).dom().contains(k) by {
                    if exists|x: int| 0 <= x < before.len() && before[x].0 == k {
                        let x = choose|x: int| 0 <= x < before.len() && before[x].0 == k;
                        assert(after[x].0 == k);
                    }
                    if exists|x: int| 0 <= x < after.len() && after[x].0 == k {
                        let x = choose|x: int| 0 <= x < after.len() && after[x].0 == k;
                        if x != i {
                            assert(before[x].0 == k);
                        }
                    }
                    if k == key {
                        assert(after[i as int].0 == k);
                    }
                }
                assert forall|k: (Direction, Feature)| #![auto] entries_map(after).dom().contains(k) implies entries_map(after)[k] == entries_map(before).insert(key, slot)[k] by {
                    let x = choose|x: int| 0 <= x < after.len() && after[x].0 == k;
                    if k == key {
                        assert(x == i);
                    } else {
                        assert(x != i);
                        assert(before[x].0 == k);
                        let y = choose|y: int| 0 <= y < before.len() && before[y].0 == k;
                        assert(y == x);
                    }
                }
                assert(entries_map(after) =~= entries_map(before).insert(key, slot));
            }
            return;
        }
        i = i + 1;
    }
    entries.push((key, slot));
    proof {
        let after = entries@;
        let n = before.len() as int;
        assert forall|a: int, b: int| 0 <= a < after.len() && 0 <= b < after.len() && a != b implies after[a].0 != after[b].0 by {
            if a < n && b < n {
                assert(after[a] == before[a]);
                assert(after[b] == before[b]);
            }
        }
        assert forall|k: (Direction, Feature)| #![auto] entries_map(after).dom().contains(k) == entries_map(before).insert(key, slot).dom().contains(k) by {
            if exists|x: int| 0 <= x < before.len() && before[x].0 == k {
                let x = choose|x: int| 0 <= x < before.len() && before[x].0 == k;
                assert(after[x].0 == k);
            }
            if k == key {
                assert(after[n].0 == k);
            }
        }
        assert forall|k: (Direction, Feature)| #![auto] entries_map(after).dom().contains(k) implies entries_map(after)[k] == entries_map(before).insert(key, slot)[k] by {
            let x = choose|x: int| 0 <= x < after.len() && after[x].0 == k;
            if k == key {
                assert(x == n);
            } else {
                assert(x != n);
                assert(before[x].0 == k);
                let y = choose|y: int| 0 <= y < before.len() && before[y].0 == k;
                assert(y == x);
            }
        }
        assert(entries_map(after) =~= entries_map(before).insert(key, slot));
    }
}

/// The tail-call slot of every stage program among `programs`, by
/// direction and feature, given the slot table that the BPF object
/// publishes (`None` when it publishes none).
pub fn discover_stage_slots(rodata: Option<StageSlots>, programs: &Vec<ProgramInfo>) -> (r: Result<
    Vec<((Direction, Feature), StageSlot)>,
    String,
>)
    ensures
        match rodata {
            None => r matches Err(m) && m@ == "BPF skeleton has no rodata for optional stage slots"@,
            Some(slots) => {
                let refs = program_refs(programs@);
                if exists|k: int| is_first_unslotted(refs, slots, k) {
                    let k = choose|k: int| is_first_unslotted(refs, slots, k);
                    r matches Err(m) && m@ == refs[k].0 + ": no matching BPF rodata slot field"@
                } else {
                    r matches Ok(entries) && keys_unique(entries@) && entries_map(entries@) == slots_found(refs, slots)
                }
            },
        },
{
    let slots = match rodata {
        None => return Err(String::from_str("BPF skeleton has no rodata for optional stage slots")),
        Some(s) => s,
    };
    let ghost refs = program_refs(programs@);
    let mut entries: Vec<((Direction, Feature), StageSlot)> = Vec::new();
    let mut i: usize = 0;
    assert(entries_map(entries@) =~= Map::<(Direction, Feature), StageSlot>::empty());
    while i < programs.len()
        invariant
            i <= programs.len(),
            refs == program_refs(programs@),
            rodata == Some(slots),
            keys_unique(entries@),
            entries_map(entries@) == slots_found(refs.take(i as int), slots),
            forall|j: int| 0 <= j < i ==> !(classify(#[trigger] refs[j].0) is Some && slot_of(refs[j].0, slots) is None),
        decreases programs.len() - i,
    {
        let program = &programs[i];
        assert(refs[i as int] == (program.name@, program.fd));
        assert(refs.take(i + 1).drop_last() =~= refs.take(i as int));
        assert(refs.take(i + 1).last() == refs[i as int]);
        match classify_stage(program.name.as_str()) {
            Some(key) => {
                match slot_index(program.name.as_str(), &slots) {
                    Some(index) => {
                        put_slot(&mut entries, key, StageSlot { index, fd: program.fd });
                    },
                    None => {
                        proof {
                            assert(is_first_unslotted(refs, slots, i as int));
                            let k = choose|k: int| is_first_unslotted(refs, slots, k);
                            if k < i {
                            } else if i < k {
                                assert(!(classify(refs[i as int].0) is Some && slot_of(refs[i as int].0, slots) is None));
                            }
                            assert(k == i);
                        }
                        let mut m = String::from_str(program.name.as_str());
                        m.append(": no matching BPF rodata slot field");
                        return Err(m);
                    },
                }
            },
            None => {},
        }
        i = i + 1;
    }
    assert(refs.take(programs.len() as int) =~= refs);
    assert(!exists|k: int| is_first_unslotted(refs, slots, k));
    Ok(entries)
}

/// The number in the `i`-th 4-byte word of `bytes`, read in the machine's
/// byte order.
pub open spec fn slot_word(bytes: Seq<u8>, i: int) -> nat {
    ne_value(bytes.subrange(4 * i, 4 * i + 4))
}

/// Whether `s` is the slot table laid out in `bytes`: one 32-bit word per
/// stage program, in the order of the fields.
pub open spec fn slots_in_bytes(s: StageSlots, bytes: Seq<u8>) -> bool {
    &&& s.eth_firewall == slot_word(bytes, 0)
    &&& s.ingress_ipv4_acl_stage == slot_word(bytes, 1)
    &&& s.ingress_ipv6_acl_stage == slot_word(bytes, 2)
    &&& s.ingress_ip_rate_limit_stage == slot_word(bytes, 3)
    &&& s.ingress_port_rate_limit_stage == slot_word(bytes, 4)
    &&& s.ingress_tcp_port_stage == slot_word(bytes, 5)
    &&& s.ingress_udp_port_stage == slot_word(bytes, 6)
    &&& s.engress_eth_firewall == slot_word(bytes, 7)
    &&& s.engress_ipv4_acl_stage == slot_word(bytes, 8)
    &&& s.engress_ipv6_acl_stage == slot_word(bytes, 9)
    &&& s.engress_ip_rate_limit_stage == slot_word(bytes, 10)
    &&& s.engress_port_rate_limit_stage == slot_word(bytes, 11)
    &&& s.engress_tcp_port_stage == slot_word(bytes, 12)
    &&& s.engress_udp_port_stage == slot_word(bytes, 13)
}

fn word_at(bytes: &[u8], i: usize) -> (r: u32)
    requires
        4 * i + 4 <= bytes@.len(),
    ensures
        r == slot_word(bytes@, i as int),
{
    let n = bytes.len();
    assert(4 * i + 4 <= n);
    let k = 4 * i;
    let r = u32_from_ne_bytes([bytes[k], bytes[k + 1], bytes[k + 2], bytes[k + 3]]);
    assert(bytes@.subrange(k as int, k + 4) =~= seq![bytes@[k as int], bytes@[k + 1], bytes@[k + 2], bytes@[k + 3]]);
    r
}

/// The slot table from the bytes of the object's read-only data: fourteen
/// 32-bit words in the machine's byte order, one per stage program in the
/// order of `StageSlots`' fields. Fewer than 56 bytes hold no table.
pub fn stage_slots_from_bytes(bytes: &[u8]) -> (r: Option<StageSlots>)
    ensures
        r is Some <==> bytes@.len() >= 56,
        r matches Some(s) ==> slots_in_bytes(s, bytes@),
{
    if bytes.len() < 56 {
        return None;
    }
    Some(StageSlots {
        eth_firewall: word_at(bytes, 0),
        ingress_ipv4_acl_stage: word_at(bytes, 1),
        ingress_ipv6_acl_stage: word_at(bytes, 2),
        ingress_ip_rate_limit_stage: word_at(bytes, 3),
        ingress_port_rate_limit_stage: word_at(bytes, 4),
        ingress_tcp_port_stage: word_at(bytes, 5),
        ingress_udp_port_stage: word_at(bytes, 6),
        engress_eth_firewall: word_at(bytes, 7),
        engress_ipv4_acl_stage: word_at(bytes, 8),
        engress_ipv6_acl_stage: word_at(bytes, 9),
        engress_ip_rate_limit_stage: word_at(bytes, 10),
        engress_port_rate_limit_stage: word_at(bytes, 11),
        engress_tcp_port_stage: word_at(bytes, 12),
        engress_udp_port_stage: word_at(bytes, 13),
    })
}

/// Each stage program takes the slot that the published table gives under
/// its own name.
pub proof fn law_each_stage_reads_its_own_slot(r: StageSlots)
    ensures
        slot_of("eth_firewall"@, r) == Some(r.eth_firewall),
        slot_of("ingress_ipv4_acl_stage"@, r) == Some(r.ingress_ipv4_acl_stage),
        slot_of("ingress_ipv6_acl_stage"@, r) == Some(r.ingress_ipv6_acl_stage),
        slot_of("ingress_ip_rate_limit_stage"@, r) == Some(r.ingress_ip_rate_limit_stage),
        slot_of("ingress_port_rate_limit_stage"@, r) == Some(r.ingress_port_rate_limit_stage),
        slot_of("ingress_tcp_port_stage"@, r) == Some(r.ingress_tcp_port_stage),
        slot_of("ingress_udp_port_stage"@, r) == Some(r.ingress_udp_port_stage),
        slot_of("engress_eth_firewall"@, r) == Some(r.engress_eth_firewall),
        slot_of("engress_ipv4_acl_stage"@, r) == Some(r.engress_ipv4_acl_stage),
        slot_of("engress_ipv6_acl_stage"@, r) == Some(r.engress_ipv6_acl_stage),
        slot_of("engress_ip_rate_limit_stage"@, r) == Some(r.engress_ip_rate_limit_stage),
        slot_of("engress_port_rate_limit_stage"@, r) == Some(r.engress_port_rate_limit_stage),
        slot_of("engress_tcp_port_stage"@, r) == Some(r.engress_tcp_port_stage),
        slot_of("engress_udp_port_stage"@, r) == Some(r.engress_udp_port_stage),
{
    reveal_strlit("eth_firewall");
    reveal_strlit("ingress_ipv4_acl_stage");
    reveal_strlit("ingress_ipv6_acl_stage");
    reveal_strlit("ingress_ip_rate_limit_stage");
    reveal_strlit("ingress_port_rate_limit_stage");
    reveal_strlit("ingress_tcp_port_stage");
    reveal_strlit("ingress_udp_port_stage");
    reveal_strlit("engress_eth_firewall");
    reveal_strlit("engress_ipv4_acl_stage");
    reveal_strlit("engress_ipv6_acl_stage");
    reveal_strlit("engress_ip_rate_limit_stage");
    reveal_strlit("engress_port_rate_limit_stage");
    reveal_strlit("engress_tcp_port_stage");
    reveal_strlit("engress_udp_port_stage");
    assert("ingress_ipv4_acl_stage"@.len() != "eth_firewall"@.len());
    assert("ingress_ipv6_acl_stage"@.len() != "eth_firewall"@.len());
    assert("ingress_ipv6_acl_stage"@[11] != "ingress_ipv4_acl_stage"@[11]);
    assert("ingress_ip_rate_limit_stage"@.len() != "eth_firewall"@.len());
    assert("ingress_ip_rate_limit_stage"@.len() != "ingress_ipv4_acl_stage"@.len());
    assert("ingress_ip_rate_limit_stage"@.len() != "ingress_ipv6_acl_stage"@.len());
    assert("ingress_port_rate_limit_stage"@.len() != "eth_firewall"@.len());
    assert("ingress_port_rate_limit_stage"@.len() != "ingress_ipv4_acl_stage"@.len());
    assert("ingress_port_rate_limit_stage"@.len() != "ingress_ipv6_acl_stage"@.len());
    assert("ingress_port_rate_limit_stage"@.len() != "ingress_ip_rate_limit_stage"@.len());
    assert("ingress_tcp_port_stage"@.len() != "eth_firewall"@.len());
    assert("ingress_tcp_port_stage"@[8] != "ingress_ipv4_acl_stage"@[8]);
    assert("ingress_tcp_port_stage"@[8] != "ingress_ipv6_acl_stage"@[8]);
    assert("ingress_tcp_port_stage"@.len() != "ingress_ip_rate_limit_stage"@.len());
    assert("ingress_tcp_port_stage"@.len() != "ingress_port_rate_limit_stage"@.len());
    assert("ingress_udp_port_stage"@.len() != "eth_firewall"@.len());
    assert("ingress_udp_port_stage"@[8] != "ingress_ipv4_acl_stage"@[8]);
    assert("ingress_udp_port_stage"@[8] != "ingress_ipv6_acl_stage"@[8]);
    assert("ingress_udp_port_stage"@.len() != "ingress_ip_rate_limit_stage"@.len());
    assert("ingress_udp_port_stage"@.len() != "ingress_port_rate_limit_stage"@.len());
    assert("ingress_udp_port_stage"@[8] != "ingress_tcp_port_stage"@[8]);
    assert("engress_eth_firewall"@.len() != "eth_firewall"@.len());
    assert("engress_eth_firewall"@.len() != "ingress_ipv4_acl_stage"@.len());
    assert("engress_eth_firewall"@.len() != "ingress_ipv6_acl_stage"@.len());
    assert("engress_eth_firewall"@.len() != "ingress_ip_rate_limit_stage"@.len());
    assert("engress_eth_firewall"@.len() != "ingress_port_rate_limit_stage"@.len());
    assert("engress_eth_firewall"@.len() != "ingress_tcp_port_stage"@.len());
    assert("engress_eth_firewall"@.len() != "ingress_udp_port_stage"@.len());
    assert("engress_ipv4_acl_stage"@.len() != "eth_firewall"@.len());
    assert("engress_ipv4_acl_stage"@[0] != "ingress_ipv4_acl_stage"@[0]);
    assert("engress_ipv4_acl_stage"@[0] != "ingress_ipv6_acl_stage"@[0]);
    assert("engress_ipv4_acl_stage"@.len() != "ingress_ip_rate_limit_stage"@.len());
    assert("engress_ipv4_acl_stage"@.len() != "ingress_port_rate_limit_stage"@.len());
    assert("engress_ipv4_acl_stage"@[0] != "ingress_tcp_port_stage"@[0]);
    assert("engress_ipv4_acl_stage"@[0] != "ingress_udp_port_stage"@[0]);
    assert("engress_ipv4_acl_stage"@.len() != "engress_eth_firewall"@.len());
    assert("engress_ipv6_acl_stage"@.len() != "eth_firewall"@.len());
    assert("engress_ipv6_acl_stage"@[0] != "ingress_ipv4_acl_stage"@[0]);
    assert("engress_ipv6_acl_stage"@[0] != "ingress_ipv6_acl_stage"@[0]);
    assert("engress_ipv6_acl_stage"@.len() != "ingress_ip_rate_limit_stage"@.len());
    assert("engress_ipv6_acl_stage"@.len() != "ingress_port_rate_limit_stage"@.len());
    assert("engress_ipv6_acl_stage"@[0] != "ingress_tcp_port_stage"@[0]);
    assert("engress_ipv6_acl_stage"@[0] != "ingress_udp_port_stage"@[0]);
    assert("engress_ipv6_acl_stage"@.len() != "engress_eth_firewall"@.len());
    assert("engress_ipv6_acl_stage"@[11] != "engress_ipv4_acl_stage"@[11]);
    assert("engress_ip_rate_limit_stage"@.len() != "eth_firewall"@.len());
    assert("engress_ip_rate_limit_stage"@.len() != "ingress_ipv4_acl_stage"@.len());
    assert("engress_ip_rate_limit_stage"@.len() != "ingress_ipv6_acl_stage"@.len());
    assert("engress_ip_rate_limit_stage"@[0] != "ingress_ip_rate_limit_stage"@[0]);
    assert("engress_ip_rate_limit_stage"@.len() != "ingress_port_rate_limit_stage"@.len());
    assert("engress_ip_rate_limit_stage"@.len() != "ingress_tcp_port_stage"@.len());
    assert("engress_ip_rate_limit_stage"@.len() != "ingress_udp_port_stage"@.len());
    assert("engress_ip_rate_limit_stage"@.len() != "engress_eth_firewall"@.len());
    assert("engress_ip_rate_limit_stage"@.len() != "engress_ipv4_acl_stage"@.len());
    assert("engress_ip_rate_limit_stage"@.len() != "engress_ipv6_acl_stage"@.len());
    assert("engress_port_rate_limit_stage"@.len() != "eth_firewall"@.len());
    assert("engress_port_rate_limit_stage"@.len() != "ingress_ipv4_acl_stage"@.len());
    assert("engress_port_rate_limit_stage"@.len() != "ingress_ipv6_acl_stage"@.len());
    assert("engress_port_rate_limit_stage"@.len() != "ingress_ip_rate_limit_stage"@.len());
    assert("engress_port_rate_limit_stage"@[0] != "ingress_port_rate_limit_stage"@[0]);
    assert("engress_port_rate_limit_stage"@.len() != "ingress_tcp_port_stage"@.len());
    assert("engress_port_rate_limit_stage"@.len() != "ingress_udp_port_stage"@.len());
    assert("engress_port_rate_limit_stage"@.len() != "engress_eth_firewall"@.len());
    assert("engress_port_rate_limit_stage"@.len() != "engress_ipv4_acl_stage"@.len());
    assert("engress_port_rate_limit_stage"@.len() != "engress_ipv6_acl_stage"@.len());
    assert("engress_port_rate_limit_stage"@.len() != "engress_ip_rate_limit_stage"@.len());
    assert("engress_tcp_port_stage"@.len() != "eth_firewall"@.len());
    assert("engress_tcp_port_stage"@[0] != "ingress_ipv4_acl_stage"@[0]);
    assert("engress_tcp_port_stage"@[0] != "ingress_ipv6_acl_stage"@[0]);
    assert("engress_tcp_port_stage"@.len() != "ingress_ip_rate_limit_stage"@.len());
    assert("engress_tcp_port_stage"@.len() != "ingress_port_rate_limit_stage"@.len());
    assert("engress_tcp_port_stage"@[0] != "ingress_tcp_port_stage"@[0]);
    assert("engress_tcp_port_stage"@[0] != "ingress_udp_port_stage"@[0]);
    assert("engress_tcp_port_stage"@.len() != "engress_eth_firewall"@.len());
    assert("engress_tcp_port_stage"@[8] != "engress_ipv4_acl_stage"@[8]);
    assert("engress_tcp_port_stage"@[8] != "engress_ipv6_acl_stage"@[8]);
    assert("engress_tcp_port_stage"@.len() != "engress_ip_rate_limit_stage"@.len());
    assert("engress_tcp_port_stage"@.len() != "engress_port_rate_limit_stage"@.len());
    assert("engress_udp_port_stage"@.len() != "eth_firewall"@.len());
    assert("engress_udp_port_stage"@[0] != "ingress_ipv4_acl_stage"@[0]);
    assert("engress_udp_port_stage"@[0] != "ingress_ipv6_acl_stage"@[0]);
    assert("engress_udp_port_stage"@.len() != "ingress_ip_rate_limit_stage"@.len());
    assert("engress_udp_port_stage"@.len() != "ingress_port_rate_limit_stage"@.len());
    assert("engress_udp_port_stage"@[0] != "ingress_tcp_port_stage"@[0]);
    assert("engress_udp_port_stage"@[0] != "ingress_udp_port_stage"@[0]);
    assert("engress_udp_port_stage"@.len() != "engress_eth_firewall"@.len());
    assert("engress_udp_port_stage"@[8] != "engress_ipv4_acl_stage"@[8]);
    assert("engress_udp_port_stage"@[8] != "engress_ipv6_acl_stage"@[8]);
    assert("engress_udp_port_stage"@.len() != "engress_ip_rate_limit_stage"@.len());
    assert("engress_udp_port_stage"@.len() != "engress_port_rate_limit_stage"@.len());
    assert("engress_udp_port_stage"@[8] != "engress_tcp_port_stage"@[8]);
}

/// Each stage program is taken for the direction and feature its name
/// spells: the MAC stage of each direction by its firewall name, and
/// `<direction>_<feature>_stage` for the others.
pub proof fn law_each_stage_name_spells_its_feature()
    ensures
        classify("eth_firewall"@) == Some((Direction::Ingress, Feature::Mac)),
        classify("ingress_ipv4_acl_stage"@) == Some((Direction::Ingress, Feature::Ipv4Acl)),
        classify("ingress_ipv6_acl_stage"@) == Some((Direction::Ingress, Feature::Ipv6Acl)),
        classify("ingress_ip_rate_limit_stage"@) == Some((Direction::Ingress, Feature::IpRateLimit)),
        classify("ingress_port_rate_limit_stage"@) == Some((Direction::Ingress, Feature::PortRateLimit)),
        classify("ingress_tcp_port_stage"@) == Some((Direction::Ingress, Feature::Port(Proto::Tcp))),
        classify("ingress_udp_port_stage"@) == Some((Direction::Ingress, Feature::Port(Proto::Udp))),
        classify("engress_eth_firewall"@) == Some((Direction::Engress, Feature::Mac)),
        classify("engress_ipv4_acl_stage"@) == Some((Direction::Engress, Feature::Ipv4Acl)),
        classify("engress_ipv6_acl_stage"@) == Some((Direction::Engress, Feature::Ipv6Acl)),
        classify("engress_ip_rate_limit_stage"@) == Some((Direction::Engress, Feature::IpRateLimit)),
        classify("engress_port_rate_limit_stage"@) == Some((Direction::Engress, Feature::PortRateLimit)),
        classify("engress_tcp_port_stage"@) == Some((Direction::Engress, Feature::Port(Proto::Tcp))),
        classify("engress_udp_port_stage"@) == Some((Direction::Engress, Feature::Port(Proto::Udp))),
{
    lemma_stage_literals();
    assert(classify(stage_names()[0]) == Some(stage_pairs()[0]));
    assert(classify(stage_names()[1]) == Some(stage_pairs()[1]));
    assert(classify(stage_names()[2]) == Some(stage_pairs()[2]));
    assert(classify(stage_names()[3]) == Some(stage_pairs()[3]));
    assert(classify(stage_names()[4]) == Some(stage_pairs()[4]));
    assert(classify(stage_names()[5]) == Some(stage_pairs()[5]));
    assert(classify(stage_names()[6]) == Some(stage_pairs()[6]));
    assert(classify(stage_names()[7]) == Some(stage_pairs()[7]));
    assert(classify(stage_names()[8]) == Some(stage_pairs()[8]));
    assert(classify(stage_names()[9]) == Some(stage_pairs()[9]));
    assert(classify(stage_names()[10]) == Some(stage_pairs()[10]));
    assert(classify(stage_names()[11]) == Some(stage_pairs()[11]));
    assert(classify(stage_names()[12]) == Some(stage_pairs()[12]));
    assert(classify(stage_names()[13]) == Some(stage_pairs()[13]));
}

} // verus!
