use kukri::bpf::{AttachKind, ProgramInfo};
use kukri::settings::{Direction, Proto};
use kukri::stages::{stage_slots_from_bytes, classify_stage, discover_stage_slots, slot_index, Feature, StageSlot, StageSlots};

#[test]
fn classify_stage_mac_special_cases() {
    assert_eq!(
        classify_stage("eth_firewall"),
        Some((Direction::Ingress, Feature::Mac))
    );
    assert_eq!(
        classify_stage("engress_eth_firewall"),
        Some((Direction::Engress, Feature::Mac))
    );
}

#[test]
fn classify_stage_ipv4_acl() {
    assert_eq!(
        classify_stage("ingress_ipv4_acl_stage"),
        Some((Direction::Ingress, Feature::Ipv4Acl))
    );
    assert_eq!(
        classify_stage("engress_ipv4_acl_stage"),
        Some((Direction::Engress, Feature::Ipv4Acl))
    );
}

#[test]
fn classify_stage_ipv6_acl() {
    assert_eq!(
        classify_stage("ingress_ipv6_acl_stage"),
        Some((Direction::Ingress, Feature::Ipv6Acl))
    );
    assert_eq!(
        classify_stage("engress_ipv6_acl_stage"),
        Some((Direction::Engress, Feature::Ipv6Acl))
    );
}

#[test]
fn classify_stage_rate_limit() {
    assert_eq!(
        classify_stage("ingress_ip_rate_limit_stage"),
        Some((Direction::Ingress, Feature::IpRateLimit))
    );
    assert_eq!(
        classify_stage("ingress_port_rate_limit_stage"),
        Some((Direction::Ingress, Feature::PortRateLimit))
    );
    assert_eq!(
        classify_stage("engress_ip_rate_limit_stage"),
        Some((Direction::Engress, Feature::IpRateLimit))
    );
    assert_eq!(
        classify_stage("engress_port_rate_limit_stage"),
        Some((Direction::Engress, Feature::PortRateLimit))
    );
}

#[test]
fn classify_stage_ports() {
    assert_eq!(
        classify_stage("ingress_tcp_port_stage"),
        Some((Direction::Ingress, Feature::Port(Proto::Tcp)))
    );
    assert_eq!(
        classify_stage("ingress_udp_port_stage"),
        Some((Direction::Ingress, Feature::Port(Proto::Udp)))
    );
    assert_eq!(
        classify_stage("engress_tcp_port_stage"),
        Some((Direction::Engress, Feature::Port(Proto::Tcp)))
    );
    assert_eq!(
        classify_stage("engress_udp_port_stage"),
        Some((Direction::Engress, Feature::Port(Proto::Udp)))
    );
}

#[test]
fn classify_stage_ignores_non_stage_programs() {
    // Permanent routing targets, entry hooks, and unrelated tracepoints
    // are not optional rule stages, so dont misclassify them.
    for name in [
        "ingress_hook",
        "engress_hook",
        "ipv4handler",
        "ipv6handler",
        "",
        "ingress_",
        "engress_",
        "ingress_unknown_stage",
        "engress_unknown_stage",
        "not_a_stage_at_all",
    ] {
        assert_eq!(
            classify_stage(name),
            None,
            "unexpectedly classified \"{name}\""
        );
    }
}

fn slot_table() -> StageSlots {
    StageSlots {
        eth_firewall: 0,
        ingress_ipv4_acl_stage: 1,
        ingress_ipv6_acl_stage: 2,
        ingress_ip_rate_limit_stage: 3,
        ingress_port_rate_limit_stage: 4,
        ingress_tcp_port_stage: 5,
        ingress_udp_port_stage: 6,
        engress_eth_firewall: 7,
        engress_ipv4_acl_stage: 8,
        engress_ipv6_acl_stage: 9,
        engress_ip_rate_limit_stage: 10,
        engress_port_rate_limit_stage: 11,
        engress_tcp_port_stage: 12,
        engress_udp_port_stage: 13,
    }
}

#[test]
fn slot_index_reads_the_published_table() {
    let table = slot_table();
    assert_eq!(slot_index("eth_firewall", &table), Some(0));
    assert_eq!(slot_index("engress_udp_port_stage", &table), Some(13));
    assert_eq!(slot_index("ingress_hook", &table), None);
}

#[test]
fn discovery_keys_stage_programs_by_direction_and_feature() {
    let programs = vec![
        ProgramInfo { name: "ingress_hook".to_string(), fd: 3, kind: AttachKind::Xdp },
        ProgramInfo { name: "ingress_tcp_port_stage".to_string(), fd: 4, kind: AttachKind::Generic },
        ProgramInfo { name: "engress_eth_firewall".to_string(), fd: 5, kind: AttachKind::Generic },
    ];
    let slots = discover_stage_slots(Some(slot_table()), &programs).unwrap();
    assert_eq!(slots.len(), 2);
    assert!(slots.contains(&((Direction::Ingress, Feature::Port(Proto::Tcp)), StageSlot { index: 5, fd: 4 })));
    assert!(slots.contains(&((Direction::Engress, Feature::Mac), StageSlot { index: 7, fd: 5 })));
}

#[test]
fn discovery_without_a_slot_table_fails() {
    assert_eq!(
        discover_stage_slots(None, &vec![]),
        Err("BPF skeleton has no rodata for optional stage slots".to_string())
    );
}

#[test]
fn exactly_fourteen_names_classify_to_distinct_pairs() {
    let mut seen: Vec<(Direction, Feature)> = Vec::new();
    for dir in ["ingress", "engress"] {
        for f in ["ipv4_acl", "ipv6_acl", "ip_rate_limit", "port_rate_limit", "tcp_port", "udp_port"] {
            let name = format!("{dir}_{f}_stage");
            let pair = classify_stage(&name).expect("a stage name classifies");
            assert!(!seen.contains(&pair), "{name} repeats a pair");
            seen.push(pair);
        }
    }
    for name in ["eth_firewall", "engress_eth_firewall"] {
        let pair = classify_stage(name).expect("a stage name classifies");
        assert!(!seen.contains(&pair));
        seen.push(pair);
    }
    assert_eq!(seen.len(), 14);
    assert_eq!(classify_stage("ingress_eth_firewall"), None);
    assert_eq!(classify_stage("ingress_hook"), None);
}

#[test]
fn slot_table_is_read_word_by_word() {
    let mut bytes = Vec::new();
    for slot in 0u32..14 {
        bytes.extend_from_slice(&(slot * 10 + 1).to_ne_bytes());
    }
    bytes.extend_from_slice(&[9, 9, 9]);
    let slots = stage_slots_from_bytes(&bytes).expect("56 bytes hold a table");
    assert_eq!(slots.eth_firewall, 1);
    assert_eq!(slots.ingress_ipv4_acl_stage, 11);
    assert_eq!(slots.ingress_udp_port_stage, 61);
    assert_eq!(slots.engress_eth_firewall, 71);
    assert_eq!(slots.engress_udp_port_stage, 131);
    assert!(stage_slots_from_bytes(&bytes[..56]).is_some());
    assert!(stage_slots_from_bytes(&bytes[..55]).is_none());
    assert!(stage_slots_from_bytes(&[]).is_none());
}
