use kukri::bpf::{
    after_attach, attach_outcome, attach_plan, detach_outcome, needs_generic_link, interface_error, mac_key, needs_attach, no_interfaces_error,
    packets_processed, program_fd, protocol_routes, ranges_with_loopback, ranges_with_loopback6,
    stage_entry, sync_acl, AclMap, AttachKind, MapReset, ProgramInfo,
};
use kukri::config::{
    ACLConfig, Engress, EngressIPv4Rules, EngressIPv6Rules, EngressMacRules, EngressPortRules,
    Ingress, IngressIPv4Rules, IngressIPv6Rules, IngressMacRules, IngressPortRules, Interfaces,
    RateLimitRules,
};

fn sample_config() -> ACLConfig {
    ACLConfig {
        ingress: Ingress {
            enable_rules: false,
            tcp_rules: IngressPortRules {
                enable_port_rules: false,
                blocked_source_ranges: vec![],
                blocked_source_ports: vec![22],
            },
            udp_rules: IngressPortRules {
                enable_port_rules: false,
                blocked_source_ranges: vec![],
                blocked_source_ports: vec![],
            },
            ipv4_rules: IngressIPv4Rules {
                enable_ip_rules: false,
                disable_loopback: true,
                blocked_source_ranges: vec!["10.0.0.0/8".to_string()],
                blocked_source_ips: vec![],
            },
            ipv6_rules: IngressIPv6Rules::default(),
            mac_rules: IngressMacRules { enable_mac_rules: false, blocked_source_macs: vec![] },
            rate_limit: RateLimitRules::default(),
        },
        engress: Engress {
            enable_rules: false,
            tcp_rules: EngressPortRules {
                enable_port_rules: false,
                blocked_destination_ranges: vec![],
                blocked_destination_ports: vec![],
            },
            udp_rules: EngressPortRules {
                enable_port_rules: false,
                blocked_destination_ranges: vec![],
                blocked_destination_ports: vec![],
            },
            ipv4_rules: EngressIPv4Rules {
                enable_ip_rules: false,
                disable_loopback: false,
                blocked_destination_ranges: vec![],
                blocked_destination_ips: vec![],
            },
            ipv6_rules: EngressIPv6Rules::default(),
            mac_rules: EngressMacRules { enable_mac_rules: false, blocked_destination_macs: vec![] },
            rate_limit: RateLimitRules::default(),
        },
        interfaces: Interfaces { names: vec!["eth0".to_string()] },
    }
}

#[test]
fn ranges_with_loopback_appends_only_when_enabled() {
    let configured = vec!["10.0.0.0/8".to_string()];
    assert_eq!(ranges_with_loopback(&configured, false), configured);
    assert_eq!(
        ranges_with_loopback(&configured, true),
        vec!["10.0.0.0/8".to_string(), "127.0.0.0/8".to_string()]
    );
    assert_eq!(ranges_with_loopback(&vec![], true), vec!["127.0.0.0/8".to_string()]);
}

#[test]
fn ranges_with_loopback6_appends_only_when_enabled() {
    let configured = vec!["2001:db8::/32".to_string()];
    assert_eq!(ranges_with_loopback6(&configured, false), configured);
    assert_eq!(
        ranges_with_loopback6(&configured, true),
        vec!["2001:db8::/32".to_string(), "::1/128".to_string()]
    );
}

#[test]
fn mac_key_zero_extends() {
    assert_eq!(mac_key([1, 2, 3, 4, 5, 6]), [1, 2, 3, 4, 5, 6, 0, 0]);
}

#[test]
fn sync_writes_every_map_in_order() {
    let config = sample_config();
    let (writes, result) = sync_acl(&config);
    assert_eq!(result, Ok(()));
    assert_eq!(writes.len(), 18);
    assert_eq!(writes[0].map, AclMap::IngressTcpSrcPorts);
    assert_eq!(writes[0].reset, MapReset::ZeroEveryKey);
    assert_eq!(writes[0].entries, vec![(22u32.to_ne_bytes().to_vec(), vec![1u8])]);
    let ranges = &writes[3];
    assert_eq!(ranges.map, AclMap::IngressSrcRanges);
    let mut ten = 8u32.to_ne_bytes().to_vec();
    ten.extend_from_slice(&[10, 0, 0, 0]);
    let mut lo = 8u32.to_ne_bytes().to_vec();
    lo.extend_from_slice(&[127, 0, 0, 0]);
    assert_eq!(ranges.entries, vec![(ten, vec![1u8]), (lo, vec![1u8])]);
    assert_eq!(writes[7].map, AclMap::IngressIpRateLimitPps);
    assert_eq!(writes[7].entries, vec![(0u32.to_ne_bytes().to_vec(), 0u32.to_ne_bytes().to_vec())]);
}

#[test]
fn sync_stops_at_the_first_bad_entry() {
    let mut config = sample_config();
    config.ingress.mac_rules.blocked_source_macs.push("zz".to_string());
    let (writes, result) = sync_acl(&config);
    assert_eq!(writes.len(), 7);
    assert_eq!(writes[6].map, AclMap::IngressBlockedMac);
    assert_eq!(result, Err("is not in the form \"aa:bb:cc:dd:ee:ff\"".to_string()));
}

#[test]
fn sync_expands_port_ranges() {
    let mut config = sample_config();
    config.engress.udp_rules.blocked_destination_ranges.push(kukri::config::Range { start: 7, end: 9 });
    let (writes, _) = sync_acl(&config);
    let udp = &writes[10];
    assert_eq!(udp.map, AclMap::EngressUdpDstPorts);
    let keys: Vec<Vec<u8>> = udp.entries.iter().map(|e| e.0.clone()).collect();
    assert_eq!(
        keys,
        vec![7u32.to_ne_bytes().to_vec(), 8u32.to_ne_bytes().to_vec(), 9u32.to_ne_bytes().to_vec()]
    );
}

fn program(name: &str, fd: i32) -> ProgramInfo {
    ProgramInfo { name: name.to_string(), fd, kind: AttachKind::Generic }
}

#[test]
fn protocol_routes_point_at_the_handlers() {
    let programs = vec![program("ingress_hook", 3), program("ipv6handler", 5), program("ipv4handler", 4)];
    assert_eq!(protocol_routes(&programs), vec![(1, Some(4)), (2, Some(5))]);
    let only_v4 = vec![program("ipv4handler", 9), program("ipv4handler", 10)];
    assert_eq!(program_fd(&only_v4, "ipv4handler"), Some(9));
    assert_eq!(protocol_routes(&only_v4), vec![(1, Some(9)), (2, None)]);
}

#[test]
fn stage_entry_lays_out_native_bytes() {
    let (key, value) = stage_entry(3, Some(17));
    assert_eq!(key, 3u32.to_ne_bytes().to_vec());
    assert_eq!(value, Some(17u32.to_ne_bytes().to_vec()));
    assert_eq!(stage_entry(4, None), (4u32.to_ne_bytes().to_vec(), None));
}

#[test]
fn packets_processed_reads_the_counter() {
    let mut value = 123456789u64.to_ne_bytes().to_vec();
    value.push(0xff);
    assert_eq!(packets_processed(Some(value)), 123456789);
    assert_eq!(packets_processed(Some(vec![1, 2, 3])), 0);
    assert_eq!(packets_processed(None), 0);
}

#[test]
fn enabling_skips_attached_interfaces() {
    let attached = vec!["eth0".to_string()];
    assert!(!needs_attach(&attached, "eth0"));
    assert!(needs_attach(&attached, "wlan0"));
}

#[test]
fn attach_and_detach_reports() {
    assert_eq!(
        no_interfaces_error(AttachKind::Xdp, "ingress_hook"),
        "no interfaces configured for XDP program \"ingress_hook\""
    );
    assert_eq!(
        no_interfaces_error(AttachKind::Tc, "engress_hook"),
        "no interfaces configured for TC program \"engress_hook\""
    );
    assert_eq!(attach_outcome(&vec![]), Ok(()));
    let errors = vec![interface_error("eth0", "busy"), interface_error("wlan0", "gone")];
    assert_eq!(attach_outcome(&errors), Err("failed on interface(s): eth0: busy, wlan0: gone".to_string()));
    assert_eq!(detach_outcome(&vec![]), Ok(()));
    assert_eq!(
        detach_outcome(&vec!["x".to_string()]),
        Err("failed to detach TC/generic-XDP hook(s): x".to_string())
    );
}

#[test]
fn a_validated_config_syncs_every_map() {
    let mut config = sample_config();
    config.ingress.ipv6_rules.disable_loopback = true;
    config.engress.ipv4_rules.disable_loopback = true;
    config.engress.mac_rules.blocked_destination_macs.push("aa:bb:cc:dd:ee:ff".to_string());
    assert_eq!(config.validate(&vec![2]), Ok(()));
    let (writes, result) = sync_acl(&config);
    assert_eq!(result, Ok(()));
    assert_eq!(writes.len(), 18);
    assert_eq!(writes[15].entries, vec![(vec![0xaa, 0xbb, 0xcc, 0xdd, 0xee, 0xff, 0, 0], vec![1u8])]);
}

#[test]
fn acl_maps_are_named_as_in_the_bpf_object() {
    assert_eq!(AclMap::IngressTcpSrcPorts.name(), "ingress_tcp_src_ports");
    assert_eq!(AclMap::EngressDstRanges6.name(), "engress_dst_ranges6");
    assert_eq!(AclMap::EngressPortRateLimitPps.name(), "engress_port_rate_limit_pps");
}

fn names(list: &[&str]) -> Vec<String> {
    list.iter().map(|n| n.to_string()).collect()
}

#[test]
fn attach_plan_for_generic_programs_needs_no_interface() {
    assert_eq!(attach_plan(AttachKind::Generic, "kprobe", &vec![], &vec![]), Ok(vec![]));
    assert_eq!(attach_plan(AttachKind::Generic, "kprobe", &vec![], &names(&["eth0"])), Ok(vec![]));
}

#[test]
fn attach_plan_without_interfaces_fails() {
    assert_eq!(
        attach_plan(AttachKind::Xdp, "x", &vec![], &vec![]),
        Err("no interfaces configured for XDP program \"x\"".to_string())
    );
    assert_eq!(
        attach_plan(AttachKind::Tc, "engress_hook", &names(&["eth0"]), &vec![]),
        Err("no interfaces configured for TC program \"engress_hook\"".to_string())
    );
}

#[test]
fn attach_plan_skips_attached_interfaces_in_order() {
    let attached = names(&["eth0"]);
    let interfaces = names(&["wlan0", "eth0", "lo", "wlan0"]);
    assert_eq!(attach_plan(AttachKind::Xdp, "ingress_hook", &attached, &interfaces), Ok(names(&["wlan0", "lo", "wlan0"])));
    assert_eq!(attach_plan(AttachKind::Tc, "engress_hook", &interfaces, &interfaces), Ok(vec![]));
}

#[test]
fn sync_flags_listed_ports_and_ranges_only() {
    let mut config = sample_config();
    config.ingress.tcp_rules.blocked_source_ranges.push(kukri::config::Range { start: 80, end: 81 });
    let (writes, result) = sync_acl(&config);
    assert_eq!(result, Ok(()));
    let tcp = &writes[0];
    assert_eq!(tcp.map, AclMap::IngressTcpSrcPorts);
    assert_eq!(tcp.reset, MapReset::ZeroEveryKey);
    let keys: Vec<Vec<u8>> = tcp.entries.iter().map(|e| e.0.clone()).collect();
    assert_eq!(
        keys,
        vec![22u32.to_ne_bytes().to_vec(), 80u32.to_ne_bytes().to_vec(), 81u32.to_ne_bytes().to_vec()]
    );
    assert!(tcp.entries.iter().all(|e| e.1 == vec![1u8]));
    assert!(writes[1].entries.is_empty());
}

#[test]
fn sync_clears_address_maps_before_writing() {
    let mut config = sample_config();
    config.ingress.ipv4_rules.blocked_source_ips.push(0x0a000001);
    let (writes, result) = sync_acl(&config);
    assert_eq!(result, Ok(()));
    assert_eq!(writes[2].map, AclMap::IngressSrcIps);
    assert_eq!(writes[2].reset, MapReset::DeleteEveryKey);
    assert_eq!(writes[2].entries, vec![(0x0a000001u32.to_ne_bytes().to_vec(), vec![1u8])]);
    for i in [3usize, 4, 5, 6, 11, 12, 13, 14, 15] {
        assert_eq!(writes[i].reset, MapReset::DeleteEveryKey, "write {i}");
    }
}

#[test]
fn sync_fails_on_an_unparsable_ipv6_range() {
    let mut config = sample_config();
    config.engress.ipv6_rules.blocked_destination_ranges.push("2001:db8::/129".to_string());
    let (_, result) = sync_acl(&config);
    assert!(result.is_err());
    let mut fine = sample_config();
    fine.engress.ipv6_rules.blocked_destination_ranges.push("2001:db8::/32".to_string());
    assert_eq!(sync_acl(&fine).1, Ok(()));
}

#[test]
fn after_attach_records_only_successes() {
    let attached = names(&["eth0"]);
    assert_eq!(after_attach(&attached, "wlan0", true), names(&["eth0", "wlan0"]));
    assert_eq!(after_attach(&attached, "wlan0", false), names(&["eth0"]));
    assert_eq!(after_attach(&vec![], "lo", true), names(&["lo"]));
}

#[test]
fn generic_programs_link_once() {
    assert!(needs_generic_link(AttachKind::Generic, 0));
    assert!(!needs_generic_link(AttachKind::Generic, 1));
    assert!(!needs_generic_link(AttachKind::Xdp, 0));
    assert!(!needs_generic_link(AttachKind::Tc, 0));
}
