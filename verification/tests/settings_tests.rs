use kukri::config::{
    ACLConfig, Engress, EngressIPv4Rules, EngressIPv6Rules, EngressMacRules, EngressPortRules,
    Ingress, IngressIPv4Rules, IngressIPv6Rules, IngressMacRules, IngressPortRules, Interfaces,
    RateLimitRules,
};
use kukri::config::Range;
use kukri::settings::{parse_port, parse_port_range, range_label, BoolField, Direction, InterfaceSelection, ListField, Proto};

fn sample_config() -> ACLConfig {
    ACLConfig {
        ingress: Ingress {
            enable_rules: false,
            tcp_rules: IngressPortRules {
                enable_port_rules: false,
                blocked_source_ranges: vec![],
                blocked_source_ports: vec![22],
            },
            udp_rules: IngressPortRules {
                enable_port_rules: false,
                blocked_source_ranges: vec![],
                blocked_source_ports: vec![],
            },
            ipv4_rules: IngressIPv4Rules {
                enable_ip_rules: false,
                disable_loopback: true,
                blocked_source_ranges: vec!["10.0.0.0/8".to_string()],
                blocked_source_ips: vec![],
            },
            ipv6_rules: IngressIPv6Rules::default(),
            mac_rules: IngressMacRules { enable_mac_rules: false, blocked_source_macs: vec![] },
            rate_limit: RateLimitRules::default(),
        },
        engress: Engress {
            enable_rules: false,
            tcp_rules: EngressPortRules {
                enable_port_rules: false,
                blocked_destination_ranges: vec![],
                blocked_destination_ports: vec![],
            },
            udp_rules: EngressPortRules {
                enable_port_rules: false,
                blocked_destination_ranges: vec![],
                blocked_destination_ports: vec![],
            },
            ipv4_rules: EngressIPv4Rules {
                enable_ip_rules: false,
                disable_loopback: false,
                blocked_destination_ranges: vec![],
                blocked_destination_ips: vec![],
            },
            ipv6_rules: EngressIPv6Rules::default(),
            mac_rules: EngressMacRules { enable_mac_rules: false, blocked_destination_macs: vec![] },
            rate_limit: RateLimitRules::default(),
        },
        interfaces: Interfaces { names: vec!["eth0".to_string()] },
    }
}

#[test]
fn ipv6_fields_edit_independently_of_ipv4() {
    let mut config = sample_config();
    BoolField::EnableIpv6Rules(Direction::Ingress).toggle(&mut config);
    BoolField::DisableLoopback6(Direction::Ingress).toggle(&mut config);
    assert!(BoolField::EnableIpv6Rules(Direction::Ingress).get(&config));
    assert!(BoolField::DisableLoopback6(Direction::Ingress).get(&config));
    assert!(BoolField::DisableLoopback(Direction::Ingress).get(&config));

    let ip = ListField::BlockedIps6(Direction::Ingress);
    let range = ListField::BlockedCidrRanges6(Direction::Engress);
    assert!(ip.add(&mut config, "bad-ip").is_err());
    assert!(range.add(&mut config, "::/129").is_err());
    ip.add(&mut config, "2001:db8::1").unwrap();
    range.add(&mut config, "::1/128").unwrap();
    assert_eq!(ip.len(&config), 1);
    assert_eq!(ip.item_label(&config, 0), "2001:db8::1");
    assert_eq!(range.item_label(&config, 0), "::1/128");
    ip.remove(&mut config, 0);
    range.remove(&mut config, 0);
    assert_eq!(ip.len(&config), 0);
    assert_eq!(range.len(&config), 0);
}

#[test]
fn interface_selection_caps_at_two_and_allows_replacement() {
    let mut selection = InterfaceSelection::default();
    selection.toggle("eth0").unwrap();
    selection.toggle("wlan0").unwrap();
    assert_eq!(
        selection.toggle("tun0"),
        Err("at most 2 interfaces can be selected at once".to_string())
    );
    assert_eq!(selection.selected, ["eth0", "wlan0"]);

    selection.toggle("eth0").unwrap();
    selection.toggle("tun0").unwrap();
    assert_eq!(selection.selected, ["wlan0", "tun0"]);
}

#[test]
fn parse_port_valid() {
    assert_eq!(parse_port("0").unwrap(), 0);
    assert_eq!(parse_port("8080").unwrap(), 8080);
    assert_eq!(parse_port("65535").unwrap(), 65535);
}

#[test]
fn parse_port_invalid() {
    assert!(parse_port("65536").is_err(), "out of u16 range must be rejected");
    assert!(parse_port("-1").is_err(), "negative must be rejected");
    assert!(parse_port("abc").is_err(), "non-numeric must be rejected");
    assert!(parse_port("").is_err(), "empty must be rejected");
}

#[test]
fn parse_port_range_valid() {
    let range = parse_port_range("0-1023").unwrap();
    assert_eq!((range.start, range.end), (0, 1023));
    let range = parse_port_range(" 1024 - 2048 ").unwrap();
    assert_eq!((range.start, range.end), (1024, 2048));
}

#[test]
fn parse_port_range_invalid() {
    assert!(parse_port_range("1023-0").is_err(), "start > end must be rejected");
    assert!(parse_port_range("1024-").is_err(), "missing end must be rejected");
    assert!(parse_port_range("1024").is_err(), "missing dash must be rejected");
}

#[test]
fn parse_port_error_messages() {
    assert_eq!(parse_port("abc").unwrap_err(), "\"abc\" is not a valid port (0-65535)");
    assert_eq!(
        parse_port_range("1023-0").unwrap_err(),
        "start (1023) must be <= end (0)"
    );
}

#[test]
fn toggling_a_switch_twice_restores_it() {
    let mut config = sample_config();
    let field = BoolField::EnablePortRules(Direction::Engress, Proto::Udp);
    assert!(!field.get(&config));
    field.toggle(&mut config);
    assert!(field.get(&config));
    assert!(!BoolField::EnablePortRules(Direction::Engress, Proto::Tcp).get(&config));
    field.toggle(&mut config);
    assert!(!field.get(&config));
}

#[test]
fn add_then_remove_restores_the_list() {
    let mut config = sample_config();
    let field = ListField::BlockedPortRanges(Direction::Ingress, Proto::Tcp);
    field.add(&mut config, "100-200").unwrap();
    assert_eq!(field.len(&config), 1);
    assert_eq!(field.item_label(&config, 0), "100-200");
    assert_eq!(config.ingress.tcp_rules.blocked_source_ranges, vec![Range { start: 100, end: 200 }]);
    field.remove(&mut config, 0);
    assert_eq!(field.len(&config), 0);
}

#[test]
fn added_ipv4_address_is_shown_dotted() {
    let mut config = sample_config();
    let field = ListField::BlockedIps(Direction::Engress);
    field.add(&mut config, " 192.168.0.7 ").unwrap();
    assert_eq!(config.engress.ipv4_rules.blocked_destination_ips, vec![0xc0a8_0007]);
    assert_eq!(field.item_label(&config, 0), "192.168.0.7");
    assert_eq!(field.add(&mut config, "   "), Err("value cannot be empty".to_string()));
}

#[test]
fn range_label_parses_back() {
    let range = Range { start: 80, end: 443 };
    assert_eq!(range_label(&range), "80-443");
    assert_eq!(parse_port_range(&range_label(&range)).unwrap(), range);
}

#[test]
fn labels_of_directions() {
    assert_eq!(Direction::Ingress.label(), "Ingress");
    assert_eq!(Direction::Engress.label(), "Engress");
}
