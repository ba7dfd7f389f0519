use kukri::events::{DropReason, EventLog, KukriEvent};
use kukri::screen::{
    attachment_rows, default_footer_hint, direction_header, interface_rows, ip_rows, is_selectable,
    layer2_rows, layer3_rows, layer4_rows, mac_rows, peer_word, port_items, port_section_rows,
    summary_line, summary_rows, tally, Attachment, Row, SettingsSection, Tab, centered_rect, row_line, Area,
};
use kukri::config::Range;
use kukri::settings::{BoolField, Direction, InterfaceSelection, ListField, Proto};
use kukri::config::{
    ACLConfig, Engress, EngressIPv4Rules, EngressIPv6Rules, EngressMacRules, EngressPortRules,
    Ingress, IngressIPv4Rules, IngressIPv6Rules, IngressMacRules, IngressPortRules, Interfaces,
    RateLimitRules,
};

fn sample_config() -> ACLConfig {
    ACLConfig {
        ingress: Ingress {
            enable_rules: false,
            tcp_rules: IngressPortRules {
                enable_port_rules: false,
                blocked_source_ranges: vec![],
                blocked_source_ports: vec![22],
            },
            udp_rules: IngressPortRules {
                enable_port_rules: false,
                blocked_source_ranges: vec![],
                blocked_source_ports: vec![],
            },
            ipv4_rules: IngressIPv4Rules {
                enable_ip_rules: false,
                disable_loopback: true,
                blocked_source_ranges: vec!["10.0.0.0/8".to_string()],
                blocked_source_ips: vec![],
            },
            ipv6_rules: IngressIPv6Rules::default(),
            mac_rules: IngressMacRules { enable_mac_rules: false, blocked_source_macs: vec![] },
            rate_limit: RateLimitRules::default(),
        },
        engress: Engress {
            enable_rules: false,
            tcp_rules: EngressPortRules {
                enable_port_rules: false,
                blocked_destination_ranges: vec![],
                blocked_destination_ports: vec![],
            },
            udp_rules: EngressPortRules {
                enable_port_rules: false,
                blocked_destination_ranges: vec![],
                blocked_destination_ports: vec![],
            },
            ipv4_rules: EngressIPv4Rules {
                enable_ip_rules: false,
                disable_loopback: false,
                blocked_destination_ranges: vec![],
                blocked_destination_ips: vec![],
            },
            ipv6_rules: EngressIPv6Rules::default(),
            mac_rules: EngressMacRules { enable_mac_rules: false, blocked_destination_macs: vec![] },
            rate_limit: RateLimitRules::default(),
        },
        interfaces: Interfaces { names: vec!["eth0".to_string()] },
    }
}

fn info(text: &str) -> Row {
    Row::Info(text.to_string())
}

fn texts(rows: &[Row]) -> Vec<String> {
    rows.iter()
        .map(|r| match r {
            Row::Header(t) | Row::Info(t) | Row::Bool(_, t) | Row::Item(_, _, t) | Row::AddNew(_, t) => t.clone(),
            Row::Iface(n, on) => format!("{n} {on}"),
        })
        .collect()
}

#[test]
fn sections_cycle_both_ways() {
    let mut s = SettingsSection::Ip;
    let mut seen = vec![];
    for _ in 0..5 {
        seen.push(s.label());
        s = s.next();
    }
    assert_eq!(s, SettingsSection::Ip);
    assert_eq!(seen, vec!["IP", "TCP", "UDP", "MAC", "Interfaces"]);
    assert_eq!(SettingsSection::Ip.prev(), SettingsSection::Interfaces);
    assert_eq!(SettingsSection::Mac.next().prev(), SettingsSection::Mac);
}

#[test]
fn headers_and_peers() {
    assert_eq!(direction_header(Direction::Engress), "── Engress ──");
    assert_eq!(peer_word(Direction::Ingress), "source");
    assert_eq!(peer_word(Direction::Engress), "destination");
    assert!(!is_selectable(&info("x")));
    assert!(is_selectable(&Row::Iface("eth0".to_string(), false)));
}

#[test]
fn summary_lines_list_what_is_blocked() {
    let items = port_items(&vec![22, 80], &vec![Range { start: 1000, end: 1010 }]);
    assert_eq!(items, vec!["22", "80", "1000-1010"]);
    assert_eq!(texts(&[summary_line("Ingress TCP (source)", &items)]), vec!["Ingress TCP (source): blocking 22, 80, 1000-1010"]);
    assert_eq!(texts(&[summary_line("Engress MAC (destination)", &vec![])]), vec!["Engress MAC (destination): none blocked"]);
}

#[test]
fn layer_rows_summarise_the_rules() {
    let mut config = sample_config();
    config.ingress.ipv4_rules.blocked_source_ips.push(0x0a00_0001);
    assert_eq!(
        texts(&layer3_rows(&config)),
        vec![
            "Layer 3 Summary",
            "Ingress IPv4 (source): blocking 10.0.0.1, 10.0.0.0/8",
            "Ingress IPv6 (source): none blocked",
            "Engress IPv4 (destination): none blocked",
            "Engress IPv6 (destination): none blocked",
        ]
    );
    assert_eq!(texts(&layer2_rows(&config))[0], "Layer 2 Summary");
    assert_eq!(texts(&layer4_rows(&config))[1], "Ingress TCP (source): blocking 22");
}

#[test]
fn port_section_lists_entries_between_header_and_add_row() {
    let config = sample_config();
    let rows = port_section_rows(&config, Proto::Tcp);
    assert_eq!(
        texts(&rows)[..5].to_vec(),
        vec!["── Ingress ──", "Enable rules", "Blocked source ports", "22", "+ add source port"]
    );
    assert!(matches!(rows[1], Row::Bool(BoolField::EnablePortRules(Direction::Ingress, Proto::Tcp), _)));
    assert!(matches!(rows[3], Row::Item(ListField::BlockedPorts(Direction::Ingress, Proto::Tcp), 0, _)));
    assert_eq!(rows.len(), 13);
}

#[test]
fn ip_section_shows_rate_limits() {
    let mut config = sample_config();
    config.engress.rate_limit.port_rate_limit_pps = 250;
    let rows = texts(&ip_rows(&config));
    assert!(rows.contains(&"+ add destination CIDR range (a.b.c.d/prefix)".to_string()));
    assert!(rows.contains(&"Port limit: 250 packets/s (0 = unlimited)".to_string()));
    assert!(rows.contains(&"Enable per-source-IP rate limit".to_string()));
    assert_eq!(texts(&mac_rows(&config))[3], "+ add source MAC (aa:bb:cc:dd:ee:ff)");
}

#[test]
fn interface_rows_mark_the_selection() {
    let selection = InterfaceSelection {
        available: vec!["eth0".to_string(), "wlan0".to_string()],
        selected: vec!["wlan0".to_string()],
    };
    assert_eq!(texts(&interface_rows(&selection)), vec!["eth0 false", "wlan0 true"]);
}

#[test]
fn footer_hints() {
    assert_eq!(default_footer_hint(Tab::Summary), "Tab switch page   s save config   q quit");
    assert!(default_footer_hint(Tab::Settings).starts_with("Tab switch page   \u{2190}/\u{2192} section"));
}

#[test]
fn tally_counts_distinct_keys_in_order() {
    assert_eq!(tally(&vec![5, 1, 5, 3, 1, 5]), vec![(1, 2), (3, 1), (5, 3)]);
    assert_eq!(tally(&vec![]), vec![]);
}

fn dropped(reason: DropReason, ip: Option<u32>, port: Option<u16>) -> KukriEvent {
    KukriEvent { ts_ns: 0, direction: Direction::Ingress, reason, ip, port, mac: None }
}

#[test]
fn summary_counts_the_event_stream() {
    let config = sample_config();
    let programs = vec![Attachment {
        name: "ingress_hook".to_string(),
        running: true,
        interfaces: vec!["eth0".to_string(), "wlan0".to_string()],
        generic: vec!["wlan0".to_string()],
    }];
    let mut log = EventLog::new();
    log.push(dropped(DropReason::PortRateLimit, None, Some(443)));
    log.push(dropped(DropReason::Ipv4Acl, Some(0x0a00_0002), None));
    log.push(dropped(DropReason::Ipv4Acl, Some(0x0a00_0001), None));
    log.push(dropped(DropReason::Ipv4Acl, Some(0x0a00_0002), None));
    log.push(dropped(DropReason::IpRateLimit, Some(0xc0a8_0001), None));
    let rows = texts(&summary_rows(&config, &programs, 77, &log));
    assert_eq!(rows[0], "Attachment");
    assert_eq!(rows[1], "ingress_hook: attached to eth0, wlan0 (generic XDP)");
    assert_eq!(rows[2], "engress_hook: program not loaded");
    let stream = rows.iter().position(|r| r == "Event stream").unwrap();
    assert_eq!(
        rows[stream + 1..].to_vec(),
        vec![
            "packets processed: 77",
            "IPv4 ACL dropped events: 3",
            "IP rate limit dropped events: 1",
            "port rate limit dropped events: 1",
            "blocked IP 10.0.0.1: 1",
            "blocked IP 10.0.0.2: 2",
            "rate-limited IP 192.168.0.1: 1",
            "rate-limited port 443: 1",
        ]
    );
}

#[test]
fn attachment_rows_report_stopped_programs() {
    let programs = vec![
        Attachment { name: "engress_hook".to_string(), running: false, interfaces: vec![], generic: vec![] },
        Attachment { name: "ingress_hook".to_string(), running: true, interfaces: vec!["eth0".to_string()], generic: vec![] },
    ];
    assert_eq!(
        texts(&attachment_rows(&programs)),
        vec!["Attachment", "ingress_hook: attached to eth0", "engress_hook: NOT attached"]
    );
}

#[test]
fn popups_are_centred_and_clipped() {
    let area = Area { x: 0, y: 0, width: 100, height: 40 };
    assert_eq!(centered_rect(60, 5, area), Area { x: 20, y: 17, width: 60, height: 5 });
    let small = Area { x: 2, y: 3, width: 10, height: 4 };
    assert_eq!(centered_rect(60, 5, small), Area { x: 2, y: 3, width: 10, height: 4 });
}

#[test]
fn rows_are_drawn_with_markers() {
    let mut config = sample_config();
    config.ingress.enable_rules = true;
    assert_eq!(row_line(&Row::Bool(BoolField::EnableRules(Direction::Ingress), "Enable".to_string()), &config), "[x] Enable");
    assert_eq!(row_line(&Row::Bool(BoolField::EnableRules(Direction::Engress), "Enable".to_string()), &config), "[ ] Enable");
    assert_eq!(row_line(&Row::Iface("eth0".to_string(), true), &config), "[x] eth0");
    assert_eq!(row_line(&info("note"), &config), "  note");
    assert_eq!(
        row_line(&Row::Item(ListField::BlockedMacs(Direction::Ingress), 0, "aa".to_string()), &config),
        "    - aa  (d to remove)"
    );
}

#[test]
fn ip_lists_are_followed_by_one_add_row_and_switches_appear_once() {
    let mut config = sample_config();
    config.ingress.ipv4_rules.blocked_source_ips = vec![1, 2, 3];
    let rows = ip_rows(&config);
    let list = ListField::BlockedIps(Direction::Ingress);
    let items: Vec<usize> = rows
        .iter()
        .enumerate()
        .filter(|(_, r)| matches!(r, Row::Item(f, _, _) if *f == list))
        .map(|(i, _)| i)
        .collect();
    assert_eq!(items.len(), 3);
    assert_eq!(items[1], items[0] + 1);
    assert_eq!(items[2], items[0] + 2);
    assert!(matches!(rows[items[2] + 1], Row::AddNew(f, _) if f == list));
    let adds = rows.iter().filter(|r| matches!(r, Row::AddNew(f, _) if *f == list)).count();
    assert_eq!(adds, 1);
    let switch = BoolField::EnableIpRules(Direction::Engress);
    assert_eq!(rows.iter().filter(|r| matches!(r, Row::Bool(f, _) if *f == switch)).count(), 1);
}
